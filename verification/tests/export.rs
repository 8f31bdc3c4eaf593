use txt2epub::export::{cover_renders_text, export_chapter_inputs, preview_chapter_body, ChapterRef};
use txt2epub::models::ExportChapterRequest;

const TEXT: &str = "第一章 起\n甲\n乙\n第二章 承\n丙\n丁";

fn request(title: &str, start_line: usize, end_line: usize) -> ExportChapterRequest {
    ExportChapterRequest { title: title.to_string(), start_line, end_line }
}

#[test]
fn preview_body_skips_the_title_line() {
    let chapter = ChapterRef { title: "第一章 起".to_string(), start_line: 1, end_line: 3 };
    assert_eq!(preview_chapter_body(TEXT, &chapter).unwrap(), "甲\n乙");
}

#[test]
fn preview_body_of_a_title_only_chapter_is_empty() {
    let chapter = ChapterRef { title: "第二章 承".to_string(), start_line: 4, end_line: 4 };
    assert_eq!(preview_chapter_body(TEXT, &chapter).unwrap(), "");
}

#[test]
fn preview_rejects_ranges_outside_the_text() {
    for (start, end) in [(0, 2), (2, 7), (5, 4)] {
        let chapter = ChapterRef { title: "章".to_string(), start_line: start, end_line: end };
        assert_eq!(preview_chapter_body(TEXT, &chapter).unwrap_err(), "章节行号超出文件范围");
    }
}

#[test]
fn export_cuts_each_chapter_body() {
    let inputs = export_chapter_inputs(TEXT, &vec![request("第一章 起", 1, 3), request("第二章 承", 4, 6)]).unwrap();
    assert_eq!(inputs.len(), 2);
    assert_eq!(inputs[0].title, "第一章 起");
    assert_eq!(inputs[0].body, "甲\n乙");
    assert_eq!(inputs[1].title, "第二章 承");
    assert_eq!(inputs[1].body, "丙\n丁");
}

#[test]
fn export_fails_on_the_first_bad_range() {
    let err = export_chapter_inputs(TEXT, &vec![request("好", 1, 3), request("坏一", 3, 9), request("坏二", 0, 1)])
        .err()
        .unwrap();
    assert_eq!(err, "章节《坏一》行号超出文件范围");
}

#[test]
fn export_of_no_chapters_is_empty() {
    assert!(export_chapter_inputs(TEXT, &vec![]).unwrap().is_empty());
}

#[test]
fn windows_line_endings_are_not_part_of_bodies() {
    let inputs = export_chapter_inputs("标题\r\n一\r\n二\r\n", &vec![request("标题", 1, 3)]).unwrap();
    assert_eq!(inputs[0].body, "一\n二");
}

#[test]
fn cover_text_is_drawn_unless_the_mode_says_no_text() {
    assert!(cover_renders_text(None));
    assert!(cover_renders_text(Some("standard")));
    assert!(!cover_renders_text(Some("no_text")));
}
