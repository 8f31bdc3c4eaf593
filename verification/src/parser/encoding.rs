//! Turning the bytes of a text file into text: UTF-8 when they are UTF-8, GBK otherwise.
use vstd::prelude::*;
use vstd::utf8::{decode_utf8, encode_utf8, valid_utf8};

verus! {

/// What `encoding_rs::UTF_8.decode` gives for `bytes`: the text, and whether malformed
/// sequences had to be replaced.
pub uninterp spec fn utf8_decoding(bytes: Seq<u8>) -> (Seq<char>, bool);

/// The text that `encoding_rs::GBK.decode` gives for `bytes`.
pub uninterp spec fn gbk_decoding(bytes: Seq<u8>) -> Seq<char>;

/// `s` without a leading byte order mark.
pub open spec fn without_bom(s: Seq<char>) -> Seq<char> {
    if s.len() > 0 && s[0] == '\u{feff}' {
        s.drop_first()
    } else {
        s
    }
}

/// The text of `bytes`: their UTF-8 reading when that has no error, their GBK reading otherwise.
pub open spec fn decoded_text(bytes: Seq<u8>) -> Seq<char> {
    if !utf8_decoding(bytes).1 {
        utf8_decoding(bytes).0
    } else {
        gbk_decoding(bytes)
    }
}

/// Text stored as UTF-8 reads back as itself: its bytes are well-formed, so `decode_to_utf8`
/// returns their characters, which are the text unless it begins with a byte order mark.
pub proof fn law_utf8_text_reads_back(text: Seq<char>)
    ensures
        valid_utf8(encode_utf8(text)),
        text.len() == 0 || text[0] != '\u{feff}' ==> without_bom(decode_utf8(encode_utf8(text))) == text,
{
    vstd::utf8::encode_utf8_valid_utf8(text);
    vstd::utf8::encode_utf8_decode_utf8(text);
}

/// `bytes` start with a byte order mark that `encoding_rs` sniffs: UTF-8, UTF-16LE or
/// UTF-16BE.
pub open spec fn starts_with_bom(bytes: Seq<u8>) -> bool {
    ||| (bytes.len() >= 3 && bytes[0] == 0xEFu8 && bytes[1] == 0xBBu8 && bytes[2] == 0xBFu8)
    ||| (bytes.len() >= 2 && bytes[0] == 0xFFu8 && bytes[1] == 0xFEu8)
    ||| (bytes.len() >= 2 && bytes[0] == 0xFEu8 && bytes[1] == 0xFFu8)
}

/// Decodes with `encoding_rs::Encoding::decode` for UTF-8. Trusted: the result is the one
/// `utf8_decoding` names; and, as the crate documents, well-formed UTF-8 decodes without
/// error to its characters, a leading byte order mark removed, and malformed input without a
/// byte order mark reports errors. Longer inputs than allowed
/// here make the crate's output buffer size overflow, which panics.
#[verifier::external_body]
fn decode_as_utf8(bytes: &[u8]) -> (r: (String, bool))
    requires
        bytes@.len() <= usize::MAX / 4,
    ensures
        (r.0@, r.1) == utf8_decoding(bytes@),
        valid_utf8(bytes@) ==> !r.1 && r.0@ == without_bom(decode_utf8(bytes@)),
        !valid_utf8(bytes@) && !starts_with_bom(bytes@) ==> r.1,
{
    let (text, _, had_errors) = encoding_rs::UTF_8.decode(bytes);
    (text.into_owned(), had_errors)
}

/// Decodes with `encoding_rs::Encoding::decode` for GBK. Trusted: the result is the one
/// `gbk_decoding` names. Longer inputs than allowed here make the crate's output buffer size
/// overflow, which panics.
#[verifier::external_body]
fn decode_as_gbk(bytes: &[u8]) -> (r: String)
    requires
        bytes@.len() <= usize::MAX / 4,
    ensures
        r@ == gbk_decoding(bytes@),
{
    let (text, _, _) = encoding_rs::GBK.decode(bytes);
    text.into_owned()
}

/// Decodes a text file: as UTF-8 when that succeeds without error, as GBK otherwise.
pub fn decode_to_utf8(bytes: &[u8]) -> (r: String)
    requires
        bytes@.len() <= usize::MAX / 4,
    ensures
        r@ == decoded_text(bytes@),
        valid_utf8(bytes@) ==> r@ == without_bom(decode_utf8(bytes@)),
        !valid_utf8(bytes@) && !starts_with_bom(bytes@) ==> r@ == gbk_decoding(bytes@),
{
    let (text, had_errors) = decode_as_utf8(bytes);
    if !had_errors {
        return text;
    }
    decode_as_gbk(bytes)
}

} // verus!
