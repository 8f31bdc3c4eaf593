use txt2epub::cover::{cover_templates, font_file_name, font_resource_path, parse_color, text_color, CoverFile};

fn file(name: &str, is_file: bool) -> CoverFile {
    CoverFile { file_name: name.to_string(), path: format!("/res/covers/{name}"), is_file }
}

#[test]
fn cover_templates_are_image_files_sorted_and_named() {
    let files = vec![
        file("template_02.png", true),
        file("template-names.json", true),
        file("template_01.JPG", true),
        file("nested.png", false),
        file("template_03.webp", true),
    ];
    let names = vec![("template_01.JPG".to_string(), "水墨".to_string())];
    let templates = cover_templates(&files, &names);
    let listed: Vec<(&str, &str)> = templates.iter().map(|t| (t.path.as_str(), t.name.as_str())).collect();
    assert_eq!(
        listed,
        vec![
            ("/res/covers/template_01.JPG", "水墨"),
            ("/res/covers/template_02.png", "template_02.png"),
            ("/res/covers/template_03.webp", "template_03.webp"),
        ]
    );
}

#[test]
fn no_files_give_no_templates() {
    assert!(cover_templates(&vec![], &vec![]).is_empty());
}

#[test]
fn every_offered_font_family_has_its_file() {
    let expected = [
        ("Huiwen GangHei", "HuiwenGangHei.ttf"),
        ("Huiwen FangSong", "HuiwenFangSong.ttf"),
        ("QingLiu ShuShi Ti", "QingLiuShuShiTi.ttf"),
        ("HengShan MaoBi CaoShu", "HengShanMaoBiCaoShu-2.ttf"),
        ("SanJi PoMo Ti", "SanJiPoMoTi-2.ttf"),
        ("YanShi ChunFeng Kai", "YanShiChunFengKai-2.ttf"),
        ("Slidefu Regular", "Slidefu-Regular-2.ttf"),
    ];
    for (family, file_name) in expected {
        assert_eq!(font_file_name(family), Ok(file_name));
    }
}

#[test]
fn unknown_font_family_is_an_error() {
    assert_eq!(font_file_name("Comic Sans"), Err("未知字体: Comic Sans".to_string()));
}

#[test]
fn font_files_live_under_resources_fonts() {
    assert_eq!(font_resource_path("HuiwenGangHei.ttf"), "resources/fonts/HuiwenGangHei.ttf");
}

#[test]
fn known_colours_parse_and_others_are_white() {
    assert_eq!(parse_color("#000000"), [0, 0, 0, 255]);
    assert_eq!(parse_color("#ffffff"), [255, 255, 255, 255]);
    assert_eq!(parse_color("#ff0000"), [255, 0, 0, 255]);
    assert_eq!(parse_color("#0000ff"), [0, 0, 255, 255]);
    assert_eq!(parse_color("#ffff00"), [255, 255, 0, 255]);
    assert_eq!(parse_color("#00ff00"), [255, 255, 255, 255]);
    assert_eq!(parse_color("#FF0000"), [255, 255, 255, 255]);
}

#[test]
fn text_is_white_when_no_colour_is_given() {
    assert_eq!(text_color(None), [255, 255, 255, 255]);
    assert_eq!(text_color(Some("#ff0000")), [255, 0, 0, 255]);
}

#[test]
fn titles_are_split_nearest_the_middle_first() {
    assert_eq!(txt2epub::cover::title_split_order(5), vec![2, 2, 1, 3, 4]);
    assert_eq!(txt2epub::cover::title_split_order(4), vec![2, 2, 1, 3]);
    assert_eq!(txt2epub::cover::title_split_order(2), vec![1, 1]);
    assert!(txt2epub::cover::title_split_order(1).is_empty());
    assert!(txt2epub::cover::title_split_order(0).is_empty());
}
