use txt2epub::parser::encoding::decode_to_utf8;

#[test]
fn decodes_utf8_bytes_unchanged() {
    let text = "第一章 你好世界";
    assert_eq!(decode_to_utf8(text.as_bytes()), text);
}

#[test]
fn falls_back_to_gbk_for_non_utf8_bytes() {
    let (gbk_bytes, _, _) = encoding_rs::GBK.encode("第一章 你好世界");
    assert_eq!(decode_to_utf8(&gbk_bytes), "第一章 你好世界");
}

#[test]
fn utf8_byte_order_mark_is_dropped() {
    let mut bytes = vec![0xEF, 0xBB, 0xBF];
    bytes.extend_from_slice("正文".as_bytes());
    assert_eq!(decode_to_utf8(&bytes), "正文");
}

#[test]
fn empty_input_decodes_to_empty_text() {
    assert_eq!(decode_to_utf8(&[]), "");
}

#[test]
fn ascii_text_is_kept() {
    assert_eq!(decode_to_utf8(b"Chapter 1\nText"), "Chapter 1\nText");
}
