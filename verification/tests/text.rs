use txt2epub::names::{extension_of, lowered_extension_or_png, same_text, text_less};
use txt2epub::text::{concat_text, push_decimal, push_signed_decimal, split_lines, string_of, trim_bounds};

fn lines(text: &str) -> Vec<String> {
    split_lines(text).iter().map(|l| string_of(l)).collect()
}

#[test]
fn lines_split_like_str_lines() {
    for text in ["", "a", "a\n", "a\nb", "a\r\nb\r\n", "\n\n", "a\rb", "x\r", "\r\n"] {
        let expected: Vec<String> = text.lines().map(|l| l.to_string()).collect();
        assert_eq!(lines(text), expected, "{text:?}");
    }
}

#[test]
fn trim_bounds_skip_unicode_white_space() {
    let chars: Vec<char> = "\u{3000} 标题\t\u{a0}".chars().collect();
    assert_eq!(trim_bounds(&chars), (2, 4));
    let blank: Vec<char> = " \t ".chars().collect();
    let (a, b) = trim_bounds(&blank);
    assert_eq!(a, b);
}

#[test]
fn numbers_are_written_in_decimal() {
    let mut s = String::from("n=");
    push_decimal(&mut s, 0);
    push_decimal(&mut s, 1203);
    assert_eq!(s, "n=01203");
    let mut s = String::new();
    push_signed_decimal(&mut s, i64::MIN);
    assert_eq!(s, i64::MIN.to_string());
    let mut s = String::new();
    push_decimal(&mut s, u64::MAX);
    assert_eq!(s, u64::MAX.to_string());
}

#[test]
fn extensions_follow_path_rules() {
    assert_eq!(extension_of("a.tar.gz"), Some("gz".to_string()));
    assert_eq!(extension_of(".hidden"), None);
    assert_eq!(extension_of("noext"), None);
    assert_eq!(extension_of("trailing."), Some("".to_string()));
    assert_eq!(extension_of(".."), None);
    assert_eq!(lowered_extension_or_png("Header.JPG"), "jpg");
    assert_eq!(lowered_extension_or_png("header"), "png");
}

#[test]
fn text_comparisons() {
    assert!(same_text("甲", "甲"));
    assert!(!same_text("甲", "乙"));
    assert!(text_less("header-01.png", "header-02.png"));
    assert!(text_less("a", "ab"));
    assert!(!text_less("b", "ab"));
    assert!(!text_less("a", "a"));
    assert_eq!(concat_text("前", "后"), "前后");
}
