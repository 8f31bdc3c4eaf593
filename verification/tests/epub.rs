use std::io::Read;
use txt2epub::epub::builder::{
    build_full_epub_from_assets, build_preview_epub_from_assets, mime_for_extension,
    plan_full_epub, plan_preview_epub, split_paragraphs, ExportChapterInput, ExportStep,
    StepPercent, StyleAssets, StyleFile,
};
use txt2epub::epub::template::{
    render_chapter_xhtml, render_cover_xhtml, ChapterRenderContext, CoverRenderContext,
};

const CHAPTER_TEMPLATE: &str = r#"<?xml version="1.0" encoding="utf-8"?>
<html xmlns="http://www.w3.org/1999/xhtml"><head><title>{{ title }}</title><link rel="stylesheet" type="text/css" href="../Styles/mybooks.css"/></head>
<body><section id="{{ chapter_id }}" class="{{ variant_class }}"><img class="header" src="{{ header_image_href }}" alt=""/>{% if header_ornament_href %}<img class="ornament" src="{{ header_ornament_href }}" alt=""/>{% endif %}<h1>{{ title }}</h1>{% for p in paragraphs %}<p>{{ p }}</p>{% endfor %}{% if footer_ornament_href %}<img class="ornament" src="{{ footer_ornament_href }}" alt=""/>{% endif %}</section></body></html>"#;

const COVER_TEMPLATE: &str = r#"<?xml version="1.0" encoding="utf-8"?>
<html xmlns="http://www.w3.org/1999/xhtml"><head><title>{{ title }}</title></head>
<body><div class="cover"><img src="{{ cover_image_href }}" width="{{ width }}" height="{{ height }}" alt="{{ title }}"/></div></body></html>"#;

fn filler(tag: u8, len: usize) -> Vec<u8> {
    (0..len).map(|i| tag.wrapping_add((i % 251) as u8)).collect()
}

fn assets(dir: &str, headers: &[&str]) -> StyleAssets {
    StyleAssets {
        dir_display: dir.to_string(),
        header_images: headers
            .iter()
            .enumerate()
            .map(|(i, name)| StyleFile { file_name: name.to_string(), content: Ok(filler(i as u8, 700)) })
            .collect(),
        header_ornament: Some(Ok(filler(7, 300))),
        footer_ornament: None,
    }
}

fn css() -> Result<Vec<u8>, String> {
    Ok(b"body { margin: 0; } h1 { text-align: center; }".to_vec())
}

#[test]
fn splits_paragraphs_and_trims_blank_lines() {
    let body = "第一段。\n\n  第二段，带前导空格。  \n\n\n第三段。";
    let paragraphs = split_paragraphs(body);
    assert_eq!(paragraphs, vec!["第一段。", "第二段，带前导空格。", "第三段。"]);
}

#[test]
fn split_paragraphs_handles_crlf_and_unicode_spaces() {
    let body = "\u{3000}\u{3000}第一段\r\n\u{3000}\r\n第二段\t";
    assert_eq!(split_paragraphs(body), vec!["第一段", "第二段"]);
    assert!(split_paragraphs("").is_empty());
    assert!(split_paragraphs(" \n\t\n").is_empty());
}

#[test]
fn paragraphs_come_back_unchanged_when_split_again() {
    let once = split_paragraphs("  一  \n\n二\n   \n三 ");
    let again = split_paragraphs(&once.join("\n"));
    assert_eq!(once, again);
}

#[test]
fn builds_a_valid_epub_zip_from_real_resources() {
    let bytes = build_preview_epub_from_assets(
        "测试书名",
        "第一章 测试",
        "这是正文第一段。\n\n这是正文第二段。",
        &assets("chapter-styles/xianxia", &["header-01.png", "header-02.png"]),
        &css(),
        0,
        CHAPTER_TEMPLATE,
    )
    .expect("build_preview_epub_from_assets should succeed");

    assert_eq!(&bytes[0..2], b"PK", "output should be a valid zip archive");
    assert!(bytes.len() > 1000);
}

#[test]
fn errors_when_chapter_style_directory_is_missing() {
    let result = build_preview_epub_from_assets(
        "书名",
        "第一章",
        "正文",
        &assets("chapter-styles/does-not-exist", &[]),
        &css(),
        0,
        CHAPTER_TEMPLATE,
    );
    assert!(result.is_err());
    assert_eq!(result.unwrap_err(), "找不到章节样式目录 chapter-styles/does-not-exist 下的头图");
}

#[test]
fn builds_full_epub_with_cover_and_multiple_chapters() {
    let cover_bytes = vec![0u8; 16];
    let chapters = vec![
        ExportChapterInput { title: "第一章 测试".to_string(), body: "第一段。\n\n第二段。".to_string() },
        ExportChapterInput { title: "第二章 测试".to_string(), body: "另一段内容。".to_string() },
    ];

    let mut steps: Vec<ExportStep> = Vec::new();
    let bytes = build_full_epub_from_assets(
        "测试书名",
        "测试作者",
        &assets("chapter-styles/fantasy", &["header-01.png", "header-02.jpg"]),
        &css(),
        Some((&cover_bytes, 600, 900)),
        &chapters,
        CHAPTER_TEMPLATE,
        COVER_TEMPLATE,
        &mut steps,
    )
    .expect("build_full_epub_from_assets should succeed");

    assert_eq!(&bytes[0..2], b"PK");
    assert!(bytes.len() > 2000);
    let phases: Vec<String> = steps.iter().map(|s| s.phase.clone()).collect();
    assert!(phases.contains(&"cover".to_string()));
    assert!(phases.contains(&"chapters".to_string()));
    assert!(phases.contains(&"packaging".to_string()));
}

#[test]
fn builds_full_epub_without_cover() {
    let chapters = vec![ExportChapterInput { title: "唯一章节".to_string(), body: "正文内容。".to_string() }];

    let bytes = build_full_epub_from_assets(
        "无封面测试书",
        "测试作者",
        &assets("chapter-styles/scifi", &["header-01.png"]),
        &css(),
        None,
        &chapters,
        CHAPTER_TEMPLATE,
        COVER_TEMPLATE,
        &mut Vec::<ExportStep>::new(),
    )
    .expect("should succeed without a cover image");

    assert_eq!(&bytes[0..2], b"PK");
}

#[test]
fn full_export_reports_progress_in_order() {
    let chapters = vec![
        ExportChapterInput { title: "甲".to_string(), body: "一".to_string() },
        ExportChapterInput { title: "乙".to_string(), body: "二".to_string() },
        ExportChapterInput { title: "丙".to_string(), body: "三".to_string() },
    ];
    let mut log: Vec<ExportStep> = Vec::new();
    build_full_epub_from_assets(
        "书",
        "作者",
        &assets("dir", &["header-01.png"]),
        &css(),
        None,
        &chapters,
        CHAPTER_TEMPLATE,
        COVER_TEMPLATE,
        &mut log,
    )
    .unwrap();
    let steps: Vec<(String, String, String)> = log
        .into_iter()
        .map(|s| {
            let pct = match s.percent {
                StepPercent::Fixed(p) => format!("{p}"),
                StepPercent::Fraction { done, total } => format!("{done}/{total}"),
            };
            (s.phase, pct, s.message)
        })
        .collect();
    let expected: Vec<(String, String, String)> = vec![
        ("cover", "0", "正在准备封面与样式资源..."),
        ("chapters", "0/3", "正在处理章节《甲》..."),
        ("chapters", "1/3", "正在处理章节《乙》..."),
        ("chapters", "2/3", "正在处理章节《丙》..."),
        ("packaging", "90", "正在打包 EPUB 容器..."),
        ("packaging", "100", "导出完成"),
    ]
    .into_iter()
    .map(|(a, b, c)| (a.to_string(), b.to_string(), c.to_string()))
    .collect();
    assert_eq!(steps, expected);
}

#[test]
fn preview_plan_takes_the_header_image_in_turn() {
    let a = assets("dir", &["header-01.png", "header-02.JPG", "header-03.png"]);
    let plan = plan_preview_epub("书", "章", "正文", &a, &css(), 4, CHAPTER_TEMPLATE).unwrap();
    assert_eq!(plan.metadata, vec![("title".to_string(), "书".to_string())]);
    let paths: Vec<&str> = plan.resources.iter().map(|f| f.path.as_str()).collect();
    assert_eq!(paths, vec!["Styles/mybooks.css", "Images/chapter-header.jpg", "Styles/Decorations/header-line.png"]);
    assert_eq!(plan.resources[1].mime, "image/jpeg");
    assert_eq!(plan.resources[1].bytes, filler(1, 700));
    assert_eq!(plan.resources[2].mime, "image/png");
    assert!(plan.cover_image.is_none());
    assert_eq!(plan.pages.len(), 1);
    assert_eq!(plan.pages[0].href, "Text/chapter1.xhtml");
    assert!(plan.pages[0].xhtml.contains("../Images/chapter-header.jpg"));
    assert!(plan.pages[0].xhtml.contains("../Styles/Decorations/header-line.png"));
    assert!(plan.pages[0].xhtml.contains("<p>正文</p>"));
}

#[test]
fn full_plan_lists_resources_and_pages_in_order() {
    let a = assets("dir", &["header-01.png", "header-02.jpeg"]);
    let cover = vec![1u8, 2, 3];
    let chapters = vec![
        ExportChapterInput { title: "一".to_string(), body: "a".to_string() },
        ExportChapterInput { title: "二".to_string(), body: "b".to_string() },
        ExportChapterInput { title: "三".to_string(), body: "c".to_string() },
    ];
    let mut log: Vec<ExportStep> = Vec::new();
    let plan = plan_full_epub(
        "书",
        "作者",
        &a,
        &css(),
        Some((&cover, 600, 900)),
        &chapters,
        CHAPTER_TEMPLATE,
        COVER_TEMPLATE,
        &mut log,
    )
    .unwrap();
    assert_eq!(log.len(), 3);
    let meta: Vec<(&str, &str)> = plan.metadata.iter().map(|(k, v)| (k.as_str(), v.as_str())).collect();
    assert_eq!(meta, vec![("title", "书"), ("author", "作者"), ("lang", "zh")]);
    let paths: Vec<&str> = plan.resources.iter().map(|f| f.path.as_str()).collect();
    assert_eq!(
        paths,
        vec!["Styles/mybooks.css", "Styles/Decorations/header-line.png", "Images/header-01.png", "Images/header-02.jpeg"]
    );
    assert_eq!(plan.resources[3].mime, "image/jpeg");
    let cover_file = plan.cover_image.as_ref().unwrap();
    assert_eq!(cover_file.path, "Images/cover.png");
    assert_eq!(cover_file.bytes, cover);
    let hrefs: Vec<&str> = plan.pages.iter().map(|p| p.href.as_str()).collect();
    assert_eq!(hrefs, vec!["Text/cover.xhtml", "Text/chapter1.xhtml", "Text/chapter2.xhtml", "Text/chapter3.xhtml"]);
    assert!(plan.pages[0].is_cover);
    assert_eq!(plan.pages[0].title, "封面");
    assert!(plan.pages[0].xhtml.contains("width=\"600\""));
    // Header images rotate: chapter 3 uses the first again.
    assert!(plan.pages[1].xhtml.contains("../Images/header-01.png"));
    assert!(plan.pages[2].xhtml.contains("../Images/header-02.jpeg"));
    assert!(plan.pages[3].xhtml.contains("../Images/header-01.png"));
    assert!(plan.pages[3].xhtml.contains("id=\"chapter3\""));
}

#[test]
fn full_plan_reports_read_errors_in_order() {
    let mut a = assets("dir", &["header-01.png"]);
    let err = plan_full_epub("书", "作者", &a, &Err("权限不足".to_string()), None, &vec![], CHAPTER_TEMPLATE, COVER_TEMPLATE, &mut Vec::<ExportStep>::new())
        .err()
        .unwrap();
    assert_eq!(err, "读取样式表失败: 权限不足");

    a.footer_ornament = Some(Err("坏了".to_string()));
    let err = plan_full_epub("书", "作者", &a, &css(), None, &vec![], CHAPTER_TEMPLATE, COVER_TEMPLATE, &mut Vec::<ExportStep>::new())
        .err()
        .unwrap();
    assert_eq!(err, "读取footer-line.png失败: 坏了");

    a.footer_ornament = None;
    a.header_images[0].content = Err("丢失".to_string());
    let err = plan_full_epub("书", "作者", &a, &css(), None, &vec![], CHAPTER_TEMPLATE, COVER_TEMPLATE, &mut Vec::<ExportStep>::new())
        .err()
        .unwrap();
    assert_eq!(err, "读取头图失败: 丢失");
}

#[test]
fn broken_chapter_template_is_reported() {
    let result = plan_preview_epub("书", "章", "正文", &assets("dir", &["header-01.png"]), &css(), 0, "{% for %}");
    let err = result.err().unwrap();
    assert!(err.starts_with("加载模板 chapter.xhtml 失败: "), "{err}");
}

#[test]
fn chapter_and_cover_pages_render_their_context() {
    let ctx = ChapterRenderContext {
        chapter_id: "chapter7".to_string(),
        title: "第七章".to_string(),
        variant_class: "chapter-variant-standard".to_string(),
        header_image_href: "../Images/header-01.png".to_string(),
        header_ornament_href: None,
        footer_ornament_href: Some("../Styles/Decorations/footer-line.png".to_string()),
        paragraphs: vec!["甲".to_string(), "乙".to_string()],
    };
    let page = render_chapter_xhtml(CHAPTER_TEMPLATE, &ctx).unwrap();
    assert!(page.contains("id=\"chapter7\""));
    assert!(page.contains("<p>甲</p><p>乙</p>"));
    assert!(page.contains("footer-line.png"));
    assert!(!page.contains("header-line.png"));

    let cover = CoverRenderContext {
        title: "书名".to_string(),
        cover_image_href: "../Images/cover.png".to_string(),
        width: 600,
        height: 900,
    };
    let page = render_cover_xhtml(COVER_TEMPLATE, &cover).unwrap();
    assert!(page.contains("height=\"900\""));
    assert!(page.contains("../Images/cover.png"));
}

#[test]
fn image_media_types_follow_the_extension() {
    assert_eq!(mime_for_extension("jpg"), "image/jpeg");
    assert_eq!(mime_for_extension("jpeg"), "image/jpeg");
    assert_eq!(mime_for_extension("png"), "image/png");
    assert_eq!(mime_for_extension("webp"), "image/png");
    assert_eq!(mime_for_extension("JPG"), "image/png");
}

#[test]
fn a_template_that_cannot_render_is_reported() {
    let cover = CoverRenderContext {
        title: "书名".to_string(),
        cover_image_href: "../Images/cover.png".to_string(),
        width: 600,
        height: 900,
    };
    let err = render_cover_xhtml("{{ missing_value.field }}", &cover).unwrap_err();
    assert!(err.starts_with("渲染模板 cover.xhtml 失败: "), "{err}");
}

#[test]
fn a_style_without_header_images_reports_only_the_start() {
    let mut log: Vec<ExportStep> = Vec::new();
    let chapters = vec![ExportChapterInput { title: "一".to_string(), body: "a".to_string() }];
    let result = build_full_epub_from_assets(
        "书",
        "作者",
        &assets("chapter-styles/none", &[]),
        &css(),
        None,
        &chapters,
        CHAPTER_TEMPLATE,
        COVER_TEMPLATE,
        &mut log,
    );
    assert_eq!(result.unwrap_err(), "找不到章节样式目录 chapter-styles/none 下的头图");
    assert_eq!(log.len(), 1);
    assert_eq!(log[0].phase, "cover");
}

#[test]
fn a_chapter_that_fails_to_render_is_the_last_reported() {
    let mut log: Vec<ExportStep> = Vec::new();
    let chapters = vec![
        ExportChapterInput { title: "一".to_string(), body: "a".to_string() },
        ExportChapterInput { title: "二".to_string(), body: "b".to_string() },
    ];
    let result = build_full_epub_from_assets(
        "书",
        "作者",
        &assets("dir", &["header-01.png"]),
        &css(),
        None,
        &chapters,
        "{{ missing_value.field }}",
        COVER_TEMPLATE,
        &mut log,
    );
    assert!(result.is_err());
    let phases: Vec<&str> = log.iter().map(|s| s.phase.as_str()).collect();
    assert_eq!(phases, vec!["cover", "chapters"]);
}

#[test]
fn a_reporter_hands_each_step_to_its_callback() {
    let seen = std::cell::RefCell::new(Vec::new());
    let mut reporter = txt2epub::progress::Reporter::new(|s: ExportStep| seen.borrow_mut().push(s.phase));
    let chapters = vec![ExportChapterInput { title: "一".to_string(), body: "a".to_string() }];
    build_full_epub_from_assets(
        "书",
        "作者",
        &assets("dir", &["header-01.png"]),
        &css(),
        None,
        &chapters,
        CHAPTER_TEMPLATE,
        COVER_TEMPLATE,
        &mut reporter,
    )
    .unwrap();
    drop(reporter);
    assert_eq!(seen.into_inner(), vec!["cover", "chapters", "packaging", "packaging"]);
}

#[test]
fn paragraphs_of_joined_texts_are_joined_paragraphs() {
    let pairs = [("一\n\n二 ", " 三\r"), ("", "x"), ("a\r", ""), ("  ", "\n b"), ("尾\n", "\n首")];
    for (a, b) in pairs {
        let joined = split_paragraphs(&format!("{a}\n{b}"));
        let apart = [split_paragraphs(a), split_paragraphs(b)].concat();
        assert_eq!(joined, apart, "{a:?} {b:?}");
    }
}

/// The file names of a zip archive, from its central directory.
fn zip_names(bytes: &[u8]) -> Vec<String> {
    let eocd = (0..=bytes.len() - 22).rev().find(|&i| bytes[i..i + 4] == [0x50, 0x4b, 5, 6]).unwrap();
    let le16 = |i: usize| u16::from_le_bytes([bytes[i], bytes[i + 1]]) as usize;
    let le32 = |i: usize| u32::from_le_bytes([bytes[i], bytes[i + 1], bytes[i + 2], bytes[i + 3]]) as usize;
    let count = le16(eocd + 10);
    let mut at = le32(eocd + 16);
    let mut names = Vec::new();
    for _ in 0..count {
        assert_eq!(bytes[at..at + 4], [0x50, 0x4b, 1, 2]);
        let (n, x, c) = (le16(at + 28), le16(at + 30), le16(at + 32));
        names.push(String::from_utf8(bytes[at + 46..at + 46 + n].to_vec()).unwrap());
        at += 46 + n + x + c;
    }
    names
}

#[test]
fn the_archive_holds_the_planned_files_in_order() {
    let cover = vec![9u8; 16];
    let chapters = vec![
        ExportChapterInput { title: "一".to_string(), body: "a".to_string() },
        ExportChapterInput { title: "二".to_string(), body: "b".to_string() },
    ];
    let bytes = build_full_epub_from_assets(
        "书",
        "作者",
        &assets("dir", &["header-01.png"]),
        &css(),
        Some((&cover, 600, 900)),
        &chapters,
        CHAPTER_TEMPLATE,
        COVER_TEMPLATE,
        &mut Vec::<ExportStep>::new(),
    )
    .unwrap();
    assert_eq!(bytes[0..4], [0x50, 0x4b, 3, 4]);
    assert_eq!(
        zip_names(&bytes),
        vec![
            "mimetype",
            "META-INF/container.xml",
            "META-INF/com.apple.ibooks.display-options.xml",
            "OEBPS/Styles/mybooks.css",
            "OEBPS/Styles/Decorations/header-line.png",
            "OEBPS/Images/header-01.png",
            "OEBPS/Images/cover.png",
            "OEBPS/Text/cover.xhtml",
            "OEBPS/Text/chapter1.xhtml",
            "OEBPS/Text/chapter2.xhtml",
            "OEBPS/stylesheet.css",
            "OEBPS/content.opf",
            "OEBPS/toc.ncx",
            "OEBPS/nav.xhtml",
        ]
    );
}

#[test]
fn the_preview_archive_holds_its_page_and_header() {
    let bytes = build_preview_epub_from_assets(
        "书",
        "章",
        "正文",
        &assets("dir", &["header-01.JPG"]),
        &css(),
        3,
        CHAPTER_TEMPLATE,
    )
    .unwrap();
    let names = zip_names(&bytes);
    assert_eq!(names[0], "mimetype");
    assert_eq!(
        names[3..7],
        ["OEBPS/Styles/mybooks.css", "OEBPS/Images/chapter-header.jpg", "OEBPS/Styles/Decorations/header-line.png", "OEBPS/Text/chapter1.xhtml"]
    );
    assert_eq!(names.len(), 11);
}

/// The content of the file `name` in a zip archive, read through its central directory and
/// inflated where it was deflated.
fn zip_file(bytes: &[u8], name: &str) -> Vec<u8> {
    let eocd = (0..=bytes.len() - 22).rev().find(|&i| bytes[i..i + 4] == [0x50, 0x4b, 5, 6]).unwrap();
    let le16 = |i: usize| u16::from_le_bytes([bytes[i], bytes[i + 1]]) as usize;
    let le32 = |i: usize| u32::from_le_bytes([bytes[i], bytes[i + 1], bytes[i + 2], bytes[i + 3]]) as usize;
    let count = le16(eocd + 10);
    let mut at = le32(eocd + 16);
    for _ in 0..count {
        let (n, x, c) = (le16(at + 28), le16(at + 30), le16(at + 32));
        if &bytes[at + 46..at + 46 + n] == name.as_bytes() {
            let (method, size, local) = (le16(at + 10), le32(at + 20), le32(at + 42));
            let start = local + 30 + le16(local + 26) + le16(local + 28);
            let raw = &bytes[start..start + size];
            return if method == 0 {
                raw.to_vec()
            } else {
                let mut out = Vec::new();
                flate2::read::DeflateDecoder::new(raw).read_to_end(&mut out).unwrap();
                out
            };
        }
        at += 46 + n + x + c;
    }
    panic!("no file {name}");
}

#[test]
fn the_package_document_names_the_full_book() {
    let cover = vec![9u8; 16];
    let chapters = vec![ExportChapterInput { title: "一".to_string(), body: "a".to_string() }];
    let bytes = build_full_epub_from_assets(
        "书 & <标题>",
        "作者",
        &assets("dir", &["header-01.png"]),
        &css(),
        Some((&cover, 600, 900)),
        &chapters,
        CHAPTER_TEMPLATE,
        COVER_TEMPLATE,
        &mut Vec::<ExportStep>::new(),
    )
    .unwrap();
    let opf = String::from_utf8(zip_file(&bytes, "OEBPS/content.opf")).unwrap();
    assert!(opf.contains("<package version=\"3.0\""), "{opf}");
    assert!(opf.contains("<dc:title>书 &amp; &lt;标题&gt;</dc:title>"), "{opf}");
    assert!(opf.contains("<dc:creator id=\"epub-creator-0\">作者</dc:creator>"), "{opf}");
    assert!(opf.contains("<dc:language id=\"epub-creator-0\">zh</dc:language>"), "{opf}");
    assert!(opf.contains(
        "<item media-type=\"image/png\" properties=\"cover-image\" id=\"cover-image\" href=\"Images/cover.png\"/>"
    ), "{opf}");
    assert!(opf.contains("<item media-type=\"text/css\" id=\""), "{opf}");
    assert!(opf.contains("\" href=\"Styles/mybooks.css\"/>"), "{opf}");
    assert!(opf.contains("\" href=\"Text/chapter1.xhtml\"/>"), "{opf}");
}

#[test]
fn the_package_document_names_the_preview_and_its_header_type() {
    let bytes = build_preview_epub_from_assets(
        "预览书",
        "章",
        "正文",
        &assets("dir", &["header-01.JPG"]),
        &css(),
        0,
        CHAPTER_TEMPLATE,
    )
    .unwrap();
    let opf = String::from_utf8(zip_file(&bytes, "OEBPS/content.opf")).unwrap();
    assert!(opf.contains("<package version=\"3.0\""), "{opf}");
    assert!(opf.contains("<dc:title>预览书</dc:title>"), "{opf}");
    assert!(!opf.contains("<dc:creator"), "{opf}");
    assert!(!opf.contains("<dc:language"), "{opf}");
    assert!(opf.contains("<item media-type=\"image/jpeg\" id=\""), "{opf}");
    assert!(opf.contains("\" href=\"Images/chapter-header.jpg\"/>"), "{opf}");
}
