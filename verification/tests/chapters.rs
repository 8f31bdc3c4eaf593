use txt2epub::models::Chapter;
use txt2epub::parser::chapter::{
    chapters_from_title_flags, parse_chapters_with_progress, ParseCheckpoint, FULL_REGEX,
    MAX_TITLE_LINE_CHARS, PROGRESS_EMIT_INTERVAL,
};
use txt2epub::text::split_lines;

/// The older built-in pattern, kept to compare against.
const CALIBRE_REGEX: &str =
    r"^第?[0-9一二三四五六七八九十百千]+[章节卷回集].*|^章[0-9]+.*|^引子|^楔子|^尾声";

fn full_regex_matches(line: &str) -> bool {
    fancy_regex::Regex::new(FULL_REGEX).unwrap().is_match(line).unwrap()
}

#[test]
fn splits_chapters_on_chinese_numerals() {
    let content = "\
第一章 初入江湖
这是开篇的内容。
还有更多内容。
第二章 风云再起
后续剧情发展。
";
    let chapters = parse_chapters_with_progress(content, CALIBRE_REGEX, &mut Vec::<ParseCheckpoint>::new()).unwrap();
    assert_eq!(chapters.len(), 2);
    assert_eq!(chapters[0].title, "第一章 初入江湖");
    assert_eq!(chapters[0].start_line, 1);
    assert_eq!(chapters[0].end_line, 3);
    assert_eq!(chapters[1].title, "第二章 风云再起");
    assert_eq!(chapters[1].start_line, 4);
    assert_eq!(chapters[1].end_line, 5);
}

#[test]
fn recognizes_prologue_and_epilogue_markers() {
    let content = "\
引子
故事开始之前。
第一章 启程
正文。
尾声
故事结束。
";
    let chapters = parse_chapters_with_progress(content, CALIBRE_REGEX, &mut Vec::<ParseCheckpoint>::new()).unwrap();
    assert_eq!(chapters.len(), 3);
    assert_eq!(chapters[0].title, "引子");
    assert_eq!(chapters[1].title, "第一章 启程");
    assert_eq!(chapters[2].title, "尾声");
}

#[test]
fn returns_empty_when_no_heading_matches() {
    let content = "没有任何章节标题的纯文本内容。\n继续没有章节标题。\n";
    let chapters = parse_chapters_with_progress(content, CALIBRE_REGEX, &mut Vec::<ParseCheckpoint>::new()).unwrap();
    assert!(chapters.is_empty());
}

#[test]
fn does_not_misdetect_long_paragraph_starting_with_numeral_and_marker_char() {
    let content = "\
第一章 启程
一回家就和继母又吵了一架。因为她裁掉的行政人员中，有继母的弟弟。傅太太早就对她有一肚子的不满，只苦于见不到她，听说她回家了，气冲冲的走进客厅：“大小姐回来了？真是稀客，我还以为你一辈子都不见我们傅家人了。”要是从前，她低头就忍了，可是今天她刚在公司盘完账，精疲力竭，回家来听她这样一篇话，好气又好笑：“这是我的家，我回来是天经地义的事情。”
第二章 风云再起
后续剧情发展。
";
    let chapters = parse_chapters_with_progress(content, CALIBRE_REGEX, &mut Vec::<ParseCheckpoint>::new()).unwrap();
    assert_eq!(chapters.len(), 2);
    assert_eq!(chapters[0].title, "第一章 启程");
    assert_eq!(chapters[0].start_line, 1);
    assert_eq!(chapters[0].end_line, 2);
    assert_eq!(chapters[1].title, "第二章 风云再起");
}

#[test]
fn full_regex_recognizes_extended_title_forms() {
    for title in [
        "序章",
        "序章：风起",
        "前言",
        "卷首语",
        "番外之一",
        "番外篇一",
        "上册",
        "下部",
        "第十章 风起",
        "正文卷 第一章 风起",
    ] {
        assert!(full_regex_matches(title), "应当识别为标题: {title}");
    }
}

#[test]
fn full_regex_rejects_sentences_that_only_resemble_titles() {
    for sentence in [
        "前言不搭后语",
        "三回头看见他",
        "上册第3页写道",
        "中部，丘陵连绵起伏",
    ] {
        assert!(!full_regex_matches(sentence), "不应误判为标题: {sentence}");
    }
}

#[test]
fn full_regex_splits_chapters_with_extended_title_forms() {
    let content = "\
序章
故事开始之前。
番外之一 番外篇
番外内容。
第一章 启程
正文。
";
    let chapters = parse_chapters_with_progress(content, FULL_REGEX, &mut Vec::<ParseCheckpoint>::new()).unwrap();
    assert_eq!(chapters.len(), 3);
    assert_eq!(chapters[0].title, "序章");
    assert_eq!(chapters[1].title, "番外之一 番外篇");
    assert_eq!(chapters[2].title, "第一章 启程");
}

#[test]
fn rejects_invalid_regex() {
    let result = parse_chapters_with_progress("第一章 测试\n", "(", &mut Vec::<ParseCheckpoint>::new());
    assert!(result.is_err());
}

#[test]
fn invalid_regex_error_names_the_pattern_problem() {
    let err = parse_chapters_with_progress("第一章 测试\n", "(", &mut Vec::<ParseCheckpoint>::new()).unwrap_err();
    assert!(err.starts_with("正则表达式无效: "), "{err}");
}

#[test]
fn chapters_count_visible_characters_and_trim_titles() {
    let content = "  第一章 开始  \n甲 乙\t丙\n\n第二章 继续\n丁戊";
    let chapters = parse_chapters_with_progress(content, CALIBRE_REGEX, &mut Vec::<ParseCheckpoint>::new()).unwrap();
    assert_eq!(chapters.len(), 2);
    assert_eq!(chapters[0].id, 1);
    assert_eq!(chapters[0].title, "第一章 开始");
    assert_eq!((chapters[0].start_line, chapters[0].end_line), (1, 3));
    // "第一章开始" (5) + "甲乙丙" (3) + blank line (0)
    assert_eq!(chapters[0].word_count, 8);
    assert_eq!(chapters[1].id, 2);
    assert_eq!((chapters[1].start_line, chapters[1].end_line), (4, 5));
    // "第二章继续" (5) + "丁戊" (2)
    assert_eq!(chapters[1].word_count, 7);
}

#[test]
fn text_before_the_first_title_belongs_to_no_chapter() {
    let content = "前面的闲话\n再一行\n第一章 正文\n内容";
    let chapters = parse_chapters_with_progress(content, CALIBRE_REGEX, &mut Vec::<ParseCheckpoint>::new()).unwrap();
    assert_eq!(chapters.len(), 1);
    assert_eq!(chapters[0].start_line, 3);
    assert_eq!(chapters[0].end_line, 4);
}

#[test]
fn a_title_line_longer_than_the_limit_is_prose() {
    let long_title = format!("第一章{}", "长".repeat(MAX_TITLE_LINE_CHARS));
    let content = format!("{long_title}\n第二章 短标题\n正文");
    let chapters = parse_chapters_with_progress(&content, CALIBRE_REGEX, &mut Vec::<ParseCheckpoint>::new()).unwrap();
    assert_eq!(chapters.len(), 1);
    assert_eq!(chapters[0].title, "第二章 短标题");
    assert_eq!(chapters[0].start_line, 2);
}

#[test]
fn a_title_of_exactly_the_limit_still_counts() {
    let title = format!("第一章{}", "长".repeat(MAX_TITLE_LINE_CHARS - 3));
    assert_eq!(title.chars().count(), MAX_TITLE_LINE_CHARS);
    let content = format!("{title}\n正文");
    let chapters = parse_chapters_with_progress(&content, CALIBRE_REGEX, &mut Vec::<ParseCheckpoint>::new()).unwrap();
    assert_eq!(chapters.len(), 1);
    assert_eq!(chapters[0].title, title);
}

#[test]
fn progress_is_reported_every_interval_and_at_the_last_line() {
    let mut content = String::from("第一章 开始\n");
    for _ in 0..(PROGRESS_EMIT_INTERVAL + 10) {
        content.push_str("正文\n");
    }
    content.push_str("第二章 结束\n尾");
    let mut reports: Vec<ParseCheckpoint> = Vec::new();
    let chapters = parse_chapters_with_progress(&content, CALIBRE_REGEX, &mut reports).unwrap();
    assert_eq!(chapters.len(), 2);
    let total = PROGRESS_EMIT_INTERVAL + 13;
    assert_eq!(reports.len(), 2);
    assert_eq!(reports[0].line_no, PROGRESS_EMIT_INTERVAL);
    assert_eq!(reports[0].total_lines, total);
    assert_eq!(reports[0].current_chapter, "第一章 开始");
    assert_eq!(reports[0].total_chapters, 0);
    assert_eq!(reports[1].line_no, total);
    assert_eq!(reports[1].current_chapter, "第二章 结束");
    assert_eq!(reports[1].total_chapters, 1);
}

#[test]
fn empty_text_has_no_chapters_and_no_progress() {
    let mut reports: Vec<ParseCheckpoint> = Vec::new();
    let chapters = parse_chapters_with_progress("", CALIBRE_REGEX, &mut reports).unwrap();
    assert!(chapters.is_empty());
    assert!(reports.is_empty());
}

#[test]
fn chapters_from_flags_tile_the_text() {
    let lines = split_lines("a\nb\nc\nd\ne");
    let flags = vec![false, true, false, true, false];
    let chapters: Vec<Chapter> = chapters_from_title_flags(&lines, &flags);
    assert_eq!(chapters.len(), 2);
    assert_eq!((chapters[0].start_line, chapters[0].end_line), (2, 3));
    assert_eq!((chapters[1].start_line, chapters[1].end_line), (4, 5));
    assert_eq!(chapters[1].start_line, chapters[0].end_line + 1);
    assert_eq!(chapters[0].title, "b");
    assert_eq!(chapters[0].word_count, 2);
}

#[test]
fn a_pattern_that_exhausts_backtracking_fails_the_parse() {
    let content = format!("{}\n", "ab".repeat(28));
    let err = parse_chapters_with_progress(&content, r"(?i)(a|b|ab)*(?>c)", &mut Vec::<ParseCheckpoint>::new()).unwrap_err();
    assert!(err.starts_with("正则匹配失败: "), "{err}");
}

#[test]
fn a_short_text_reports_once_after_its_last_line() {
    let content = "引子\n故事开始之前。\n第一章 启程\n正文。\n尾声\n故事结束。\n";
    let mut reports: Vec<ParseCheckpoint> = Vec::new();
    let chapters = parse_chapters_with_progress(content, CALIBRE_REGEX, &mut reports).unwrap();
    assert_eq!(chapters.len(), 3);
    assert_eq!(reports.len(), 1);
    assert_eq!((reports[0].line_no, reports[0].total_lines), (6, 6));
    assert_eq!(reports[0].current_chapter, "尾声");
    assert_eq!(reports[0].total_chapters, 2);
}

#[test]
fn an_invalid_pattern_reports_nothing() {
    let mut reports: Vec<ParseCheckpoint> = Vec::new();
    assert!(parse_chapters_with_progress("第一章 测试\n", "(", &mut reports).is_err());
    assert!(reports.is_empty());
}
