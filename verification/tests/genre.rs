use txt2epub::genre::{
    find_preview_image, genre_presets, is_header_image, list_header_images,
    validate_custom_style_dir, GenrePresetEntry, StyleDirInfo, StyleDirListing,
};

fn names(v: &[&str]) -> Vec<String> {
    v.iter().map(|s| s.to_string()).collect()
}

#[test]
fn header_images_are_numbered_header_files_with_image_extensions() {
    assert!(is_header_image("header-01.png"));
    assert!(is_header_image("header-2.JPEG"));
    assert!(is_header_image("header-x.webp"));
    assert!(!is_header_image("header-line.png"));
    assert!(!is_header_image("header-lines.png"));
    assert!(!is_header_image("header-01.svg"));
    assert!(!is_header_image("header-01"));
    assert!(!is_header_image("cover.png"));
    assert!(!is_header_image("Header-01.png"));
}

#[test]
fn header_images_are_listed_sorted_by_name() {
    let listed = list_header_images(&names(&["header-10.png", "cover.png", "header-02.jpg", "header-line.png", "header-01.png"]));
    assert_eq!(listed, names(&["header-01.png", "header-02.jpg", "header-10.png"]));
}

#[test]
fn preview_image_is_the_first_header_by_name() {
    assert_eq!(find_preview_image(&names(&["header-b.png", "header-a.png"])), Some("header-a.png".to_string()));
    assert_eq!(find_preview_image(&names(&["cover.png", "header-line.png"])), None);
}

fn listing(is_dir: bool, cover: Option<&str>, files: &[&str]) -> StyleDirListing {
    StyleDirListing { is_dir, cover_image_path: cover.map(|c| c.to_string()), file_names: names(files) }
}

#[test]
fn custom_style_dir_must_exist() {
    assert_eq!(validate_custom_style_dir(&listing(false, None, &[])).unwrap_err(), "所选目录不存在");
}

#[test]
fn custom_style_dir_needs_a_cover() {
    assert_eq!(
        validate_custom_style_dir(&listing(true, None, &["header-01.png"])).unwrap_err(),
        "目录下缺少封面图片 cover.png"
    );
}

#[test]
fn custom_style_dir_needs_a_header_image() {
    assert_eq!(
        validate_custom_style_dir(&listing(true, Some("/s/cover.png"), &["cover.png", "header-line.png"])).unwrap_err(),
        "目录下缺少章节头图（如 header-01.png）"
    );
}

#[test]
fn valid_custom_style_dir_gives_its_cover_path() {
    assert_eq!(
        validate_custom_style_dir(&listing(true, Some("/s/cover.png"), &["cover.png", "header-01.png"])).unwrap(),
        "/s/cover.png"
    );
}

fn entry(id: &str, style: &str) -> GenrePresetEntry {
    GenrePresetEntry { id: id.to_string(), prompt_keywords: format!("{id} keywords"), chapter_style_id: style.to_string() }
}

fn dir(preview: &str, cover: Option<&str>) -> Result<StyleDirInfo, String> {
    Ok(StyleDirInfo { preview_image_path: preview.to_string(), cover_image_path: cover.map(|c| c.to_string()) })
}

#[test]
fn presets_take_their_labels_from_the_style_names() {
    let style_names = vec![("xianxia".to_string(), "仙侠".to_string()), ("scifi".to_string(), "科幻".to_string())];
    let presets = genre_presets(
        &vec![entry("a", "scifi"), entry("b", "xianxia")],
        &style_names,
        &vec![dir("/p/scifi/header-01.png", None), dir("", Some("/p/xianxia/cover.png"))],
    )
    .unwrap();
    assert_eq!(presets.len(), 2);
    assert_eq!(presets[0].id, "a");
    assert_eq!(presets[0].label, "科幻");
    assert_eq!(presets[0].prompt_keywords, "a keywords");
    assert_eq!(presets[0].chapter_style_id, "scifi");
    assert_eq!(presets[0].preview_image_path, "/p/scifi/header-01.png");
    assert_eq!(presets[0].cover_image_path, None);
    assert_eq!(presets[1].label, "仙侠");
    assert_eq!(presets[1].cover_image_path, Some("/p/xianxia/cover.png".to_string()));
}

#[test]
fn a_preset_without_a_style_name_is_an_error() {
    let err = genre_presets(&vec![entry("a", "wuxia")], &vec![], &vec![dir("", None)]).unwrap_err();
    assert_eq!(err, "style-names.json 缺少 wuxia 的中文名称");
}

#[test]
fn an_unresolved_style_dir_is_reported_first() {
    let err = genre_presets(
        &vec![entry("a", "wuxia"), entry("b", "scifi")],
        &vec![],
        &vec![Err("无法解析资源路径".to_string()), dir("", None)],
    )
    .unwrap_err();
    assert_eq!(err, "无法解析资源路径");
}
