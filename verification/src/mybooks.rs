//! The MyBooks server protocol: addresses, request values, how replies are read, and the
//! steps of publishing an EPUB to a book.
use vstd::prelude::*;

use crate::models::{ExportProgress, MyBooksSession};
use crate::names::same_text;
use crate::text::{chars_of, concat_text, push_char, push_signed_decimal, push_str, signed_decimal};

verus! {

/// The session kept on disk between runs: server address, user name and cookie, never the
/// password.
#[derive(Debug, Clone)]
pub struct PersistedSession {
    pub host: String,
    pub username: String,
    pub cookie: String,
}

/// What the library reads of a JSON reply of the server: the `err` and `msg` fields when they
/// are strings, and the `book_id` field when it is an integer.
#[derive(Debug, Clone)]
pub struct ApiReply {
    pub err: Option<String>,
    pub msg: Option<String>,
    pub book_id: Option<i64>,
}

/// `reqwest::Url` (the `url` crate's `Url`), held opaque.
#[verifier::external_type_specification]
#[verifier::external_body]
pub struct ExUrl(reqwest::Url);

/// The error text with which the URL parser refuses `host`, or `None` when it accepts it.
pub uninterp spec fn url_parse_error(host: Seq<char>) -> Option<Seq<char>>;

/// Parses `host` with `reqwest::Url::parse` (the `url` crate's parser); the contract claims only
/// that success and the error text are those the parser gives for `host`.
#[verifier::external_body]
fn parse_url(host: &str) -> (r: Result<reqwest::Url, String>)
    ensures
        match r {
            Ok(_) => url_parse_error(host@) is None,
            Err(e) => url_parse_error(host@) == Some(e@),
        },
{
    reqwest::Url::parse(host).map_err(|e| e.to_string())
}

/// The server address as a URL, or an error naming why `host` is not one.
pub fn base_url(host: &str) -> (r: Result<reqwest::Url, String>)
    ensures
        match r {
            Ok(_) => url_parse_error(host@) is None,
            Err(m) => url_parse_error(host@) matches Some(e) && m@ == "host 地址无效: "@ + e,
        },
{
    match parse_url(host) {
        Ok(u) => Ok(u),
        Err(e) => Err(concat_text("host 地址无效: ", e.as_str())),
    }
}

/// The reply reports success: its `err` field is the string `ok`.
pub open spec fn reply_ok(reply: ApiReply) -> bool {
    reply.err matches Some(e) && e@ == "ok"@
}

/// Whether the server reported success.
pub fn response_is_ok(reply: &ApiReply) -> (r: bool)
    ensures
        r == reply_ok(*reply),
{
    match &reply.err {
        Some(e) => same_text(e.as_str(), "ok"),
        None => false,
    }
}

/// What a sign-in reply with fields `err` and `msg` means: success, or the message shown.
pub open spec fn sign_in_outcome(err: Seq<char>, msg: Seq<char>) -> Result<(), Seq<char>> {
    if err == "ok"@ {
        Ok(())
    } else if err == "params.invalid"@ {
        Err("用户名或密码错误"@)
    } else if err == "no_user"@ {
        Err("用户不存在"@)
    } else if err == "permission.inactive"@ {
        Err("账号未激活，请先完成邮箱激活"@)
    } else if msg.len() == 0 {
        Err("登录失败: "@ + err)
    } else {
        Err("登录失败: "@ + msg)
    }
}

/// Reads the `err` and `msg` fields of a sign-in reply.
pub fn sign_in_verdict(err: &str, msg: &str) -> (r: Result<(), String>)
    ensures
        match sign_in_outcome(err@, msg@) {
            Ok(()) => r is Ok,
            Err(m) => r matches Err(s) && s@ == m,
        },
{
    if same_text(err, "ok") {
        Ok(())
    } else if same_text(err, "params.invalid") {
        Err(String::from_str("用户名或密码错误"))
    } else if same_text(err, "no_user") {
        Err(String::from_str("用户不存在"))
    } else if same_text(err, "permission.inactive") {
        Err(String::from_str("账号未激活，请先完成邮箱激活"))
    } else if msg.unicode_len() == 0 {
        Err(concat_text("登录失败: ", err))
    } else {
        Err(concat_text("登录失败: ", msg))
    }
}

/// The session to keep after a successful sign-in, given the cookie the server set, if any.
pub fn session_from_sign_in(host: &str, username: &str, cookie: Option<String>) -> (r: Result<PersistedSession, String>)
    ensures
        match cookie {
            Some(c) => r matches Ok(s) && s.host@ == host@ && s.username@ == username@ && s.cookie@ == c@,
            None => r matches Err(m) && m@ == "登录未返回有效会话"@,
        },
{
    match cookie {
        Some(c) => Ok(PersistedSession { host: String::from_str(host), username: String::from_str(username), cookie: c }),
        None => Err(String::from_str("登录未返回有效会话")),
    }
}

/// The account a stored session stands for when the server still knows it as signed in.
pub fn restored_session(session: PersistedSession, is_login: bool) -> (r: Option<MyBooksSession>)
    ensures
        is_login ==> (r matches Some(s) && s.host@ == session.host@ && s.username@ == session.username@),
        !is_login ==> r is None,
{
    if is_login {
        Some(MyBooksSession { host: session.host, username: session.username })
    } else {
        None
    }
}


/// The path of a book's TXT download.
pub fn book_txt_path(book_id: i64) -> (r: String)
    ensures
        r@ == "/api/book/"@ + signed_decimal(book_id as int) + ".txt"@,
{
    let mut r = String::from_str("/api/book/");
    push_signed_decimal(&mut r, book_id);
    push_str(&mut r, ".txt");
    r
}

/// The path that deletes one format of a book.
pub fn delete_format_path(book_id: i64) -> (r: String)
    ensures
        r@ == "/api/book/"@ + signed_decimal(book_id as int) + "/delete_format"@,
{
    let mut r = String::from_str("/api/book/");
    push_signed_decimal(&mut r, book_id);
    push_str(&mut r, "/delete_format");
    r
}

/// The path that uploads a new format for a book, leaving its metadata as it is.
pub fn upload_path(book_id: i64) -> (r: String)
    ensures
        r@ == "/api/book/upload?bid="@ + signed_decimal(book_id as int) + "&update_metadata=0"@,
{
    let mut r = String::from_str("/api/book/upload?bid=");
    push_signed_decimal(&mut r, book_id);
    push_str(&mut r, "&update_metadata=0");
    r
}

/// The longest part of a reply body quoted in an error.
pub const REPLY_SNIPPET_CHARS: usize = 300;

/// The message for a reply that is not the JSON expected: the context, the HTTP status, the
/// parser's complaint and the first characters of the body.
pub fn reply_parse_failure(context: &str, status: &str, detail: &str, body: &str) -> (r: String)
    ensures
        r@ == context@ + ": 解析失败（HTTP "@ + status@ + "）: "@ + detail@ + "；响应内容: "@
            + body@.take(if body@.len() < 300 { body@.len() as int } else { 300 }),
{
    let mut r = String::new();
    push_str(&mut r, context);
    push_str(&mut r, ": 解析失败（HTTP ");
    push_str(&mut r, status);
    push_str(&mut r, "）: ");
    push_str(&mut r, detail);
    push_str(&mut r, "；响应内容: ");
    let ghost before = r@;
    let chars = chars_of(body);
    let n = chars.len();
    let limit = if n < REPLY_SNIPPET_CHARS { n } else { REPLY_SNIPPET_CHARS };
    let mut i: usize = 0;
    while i < limit
        invariant
            limit <= n == body@.len(),
            chars@ == body@,
            i <= limit,
            r@ == before + body@.take(i as int),
        decreases limit - i,
    {
        push_char(&mut r, chars[i]);
        assert(body@.take(i + 1) =~= body@.take(i as int).push(body@[i as int]));
        i = i + 1;
    }
    r
}

/// A byte that a query value keeps as it is: an ASCII letter or digit, `-`, `_`, `.` or `~`.
pub open spec fn is_unreserved_byte(b: u8) -> bool {
    (65 <= b <= 90) || (97 <= b <= 122) || (48 <= b <= 57) || b == 45 || b == 95 || b == 46 || b == 126
}

/// The upper-case hexadecimal digit for `n` (below sixteen).
pub open spec fn hex_digit(n: int) -> char {
    if n < 10 {
        (48 + n) as char
    } else {
        (55 + n) as char
    }
}

/// How one byte is written in a query value: itself when unreserved, else `%` and two
/// upper-case hexadecimal digits.
pub open spec fn percent_code(b: u8) -> Seq<char> {
    if is_unreserved_byte(b) {
        seq![b as char]
    } else {
        seq!['%', hex_digit((b / 16) as int), hex_digit((b % 16) as int)]
    }
}

/// The percent-encoding of a byte string.
pub open spec fn percent_encoded(bytes: Seq<u8>) -> Seq<char>
    decreases bytes.len(),
{
    if bytes.len() == 0 {
        seq![]
    } else {
        percent_code(bytes[0]) + percent_encoded(bytes.skip(1))
    }
}

/// The value of a hexadecimal digit.
pub open spec fn hex_value(c: char) -> int {
    if c <= '9' {
        c as int - 48
    } else {
        c as int - 55
    }
}

/// Reads a percent-encoded string back into bytes.
pub open spec fn percent_decoded(text: Seq<char>) -> Seq<u8>
    decreases text.len(),
{
    if text.len() == 0 {
        seq![]
    } else if text[0] == '%' && text.len() >= 3 {
        seq![(hex_value(text[1]) * 16 + hex_value(text[2])) as u8] + percent_decoded(text.skip(3))
    } else {
        seq![text[0] as u8] + percent_decoded(text.skip(1))
    }
}

proof fn lemma_percent_encoded_append(a: Seq<u8>, b: u8)
    ensures
        percent_encoded(a.push(b)) == percent_encoded(a) + percent_code(b),
    decreases a.len(),
{
    if a.len() == 0 {
        assert(a.push(b).skip(1) =~= Seq::<u8>::empty());
        assert(percent_encoded(Seq::<u8>::empty()) == Seq::<char>::empty());
        assert(percent_encoded(a) == Seq::<char>::empty());
        assert(percent_encoded(a.push(b)) =~= percent_code(b));
    } else {
        assert(a.push(b).skip(1) =~= a.skip(1).push(b));
        lemma_percent_encoded_append(a.skip(1), b);
        assert(percent_encoded(a.push(b)) =~= percent_encoded(a) + percent_code(b));
    }
}

proof fn lemma_percent_code_decodes(b: u8, rest: Seq<char>)
    ensures
        percent_decoded(percent_code(b) + rest) == seq![b] + percent_decoded(rest),
{
    let t = percent_code(b) + rest;
    if is_unreserved_byte(b) {
        assert(t[0] == b as char);
        assert(t.skip(1) =~= rest);
        assert((b as char) as u8 == b);
    } else {
        let hi = b / 16;
        let lo = b % 16;
        assert(t[0] == '%');
        assert(t.skip(3) =~= rest);
        assert(hex_value(hex_digit(hi as int)) == hi);
        assert(hex_value(hex_digit(lo as int)) == lo);
        assert(hi * 16 + lo == b);
    }
}

/// Percent-encoding loses nothing: reading the encoding back gives the bytes encoded.
pub proof fn law_percent_encoding_round_trips(bytes: Seq<u8>)
    ensures
        percent_decoded(percent_encoded(bytes)) == bytes,
    decreases bytes.len(),
{
    if bytes.len() > 0 {
        law_percent_encoding_round_trips(bytes.skip(1));
        lemma_percent_code_decodes(bytes[0], percent_encoded(bytes.skip(1)));
        assert(bytes =~= seq![bytes[0]] + bytes.skip(1));
    }
}

/// An encoded value holds only unreserved characters and `%`.
pub proof fn law_percent_encoding_is_query_safe(bytes: Seq<u8>)
    ensures
        forall|i: int| 0 <= i < percent_encoded(bytes).len() ==> {
            let c = #[trigger] percent_encoded(bytes)[i];
            c == '%' || is_unreserved_byte(c as u8)
        },
    decreases bytes.len(),
{
    if bytes.len() > 0 {
        law_percent_encoding_is_query_safe(bytes.skip(1));
        let head = percent_code(bytes[0]);
        let tail = percent_encoded(bytes.skip(1));
        assert forall|i: int| 0 <= i < percent_encoded(bytes).len() implies {
            let c = #[trigger] percent_encoded(bytes)[i];
            c == '%' || is_unreserved_byte(c as u8)
        } by {
            if i >= head.len() {
                assert(percent_encoded(bytes)[i] == tail[i - head.len()]);
            } else if !is_unreserved_byte(bytes[0]) && i > 0 {
                let d = if i == 1 { bytes[0] / 16 } else { bytes[0] % 16 };
                assert(percent_encoded(bytes)[i] == hex_digit(d as int));
            }
        }
    }
}

fn hex_digit_char(n: u8) -> (c: char)
    requires
        n < 16,
    ensures
        c == hex_digit(n as int),
{
    if n < 10 {
        (48u8 + n) as char
    } else {
        (55u8 + n) as char
    }
}

/// Percent-encodes the UTF-8 bytes of `value` for use in a query string.
pub fn percent_encode_query_value(value: &str) -> (r: String)
    ensures
        r@ == percent_encoded(vstd::utf8::encode_utf8(value@)),
{
    let bytes = value.as_bytes();
    let mut r = String::new();
    let mut i: usize = 0;
    while i < bytes.len()
        invariant
            i <= bytes@.len(),
            bytes@ == vstd::utf8::encode_utf8(value@),
            r@ == percent_encoded(bytes@.take(i as int)),
        decreases bytes@.len() - i,
    {
        let b = bytes[i];
        proof {
            assert(bytes@.take(i + 1) =~= bytes@.take(i as int).push(b));
            lemma_percent_encoded_append(bytes@.take(i as int), b);
        }
        if (65u8 <= b && b <= 90u8) || (97u8 <= b && b <= 122u8) || (48u8 <= b && b <= 57u8) || b == 45u8
            || b == 95u8 || b == 46u8 || b == 126u8 {
            push_char(&mut r, b as char);
            assert(r@ =~= percent_encoded(bytes@.take(i + 1)));
        } else {
            push_char(&mut r, '%');
            push_char(&mut r, hex_digit_char(b / 16));
            push_char(&mut r, hex_digit_char(b % 16));
            assert(r@ =~= percent_encoded(bytes@.take(i + 1)));
        }
        i = i + 1;
    }
    assert(bytes@.take(bytes@.len() as int) =~= bytes@);
    r
}

/// The query string of a title search: `title:` and the keyword, percent-encoded, with no
/// parameter name before it.
pub fn search_query_string(query: &str) -> (r: String)
    ensures
        r@ == "title:"@ + percent_encoded(vstd::utf8::encode_utf8(query@)),
{
    let encoded = percent_encode_query_value(query);
    concat_text("title:", encoded.as_str())
}

/// What the shell is to do next while publishing an EPUB to a book.
pub enum PublishCommand {
    /// Delete the book's old EPUB format, then report the reply with `after_delete`.
    DeleteOldFormat,
    /// Upload the new EPUB, then report the reply with `after_upload`.
    UploadEpub,
    /// Publishing is over, with this outcome.
    Finish(Result<(), String>),
}

/// The progress to show and the next command, after one event of a publication.
pub struct PublishStep {
    pub progress: Vec<ExportProgress>,
    pub command: PublishCommand,
}

pub open spec fn progress_view(p: ExportProgress) -> (Seq<char>, u8, Seq<char>) {
    (p.phase@, p.percent, p.message@)
}

pub open spec fn progress_seq_view(v: Seq<ExportProgress>) -> Seq<(Seq<char>, u8, Seq<char>)> {
    v.map_values(|p: ExportProgress| progress_view(p))
}

pub open spec fn checking_progress() -> (Seq<char>, u8, Seq<char>) {
    ("checking_format"@, 0u8, "正在检查书库中的现有格式..."@)
}

pub open spec fn deleting_progress() -> (Seq<char>, u8, Seq<char>) {
    ("deleting_old_format"@, 10u8, "正在删除旧的 epub 格式..."@)
}

pub open spec fn uploading_progress() -> (Seq<char>, u8, Seq<char>) {
    ("uploading"@, 40u8, "正在上传新的 epub 文件..."@)
}

/// The message shown once the server accepted the upload.
pub open spec fn upload_done_message(reply: ApiReply) -> Seq<char> {
    "上传完成: book_id="@ + signed_decimal(
        match reply.book_id {
            Some(i) => i as int,
            None => 0,
        },
    ) + ", msg="@ + match reply.msg {
        Some(m) => m@,
        None => "上传成功"@,
    }
}

/// The error of a refused upload.
pub open spec fn upload_refused_message(reply: ApiReply) -> Seq<char> {
    "上传 epub 失败: "@ + match reply.msg {
        Some(m) => m@,
        None => "未知错误"@,
    }
}

fn progress_item(phase: &str, percent: u8, message: String) -> (p: ExportProgress)
    ensures
        progress_view(p) == (phase@, percent, message@),
{
    ExportProgress { phase: String::from_str(phase), percent, message }
}

/// The start of a publication: the format check is announced, then the deletion of the old
/// EPUB when the book has one, or else the upload.
pub fn publish_opening(had_existing_epub: bool) -> (r: PublishStep)
    ensures
        had_existing_epub ==> progress_seq_view(r.progress@) == seq![checking_progress(), deleting_progress()]
            && r.command is DeleteOldFormat,
        !had_existing_epub ==> progress_seq_view(r.progress@) == seq![checking_progress(), uploading_progress()]
            && r.command is UploadEpub,
{
    let mut progress: Vec<ExportProgress> = Vec::new();
    progress.push(progress_item("checking_format", 0, String::from_str("正在检查书库中的现有格式...")));
    let command = if had_existing_epub {
        progress.push(progress_item("deleting_old_format", 10, String::from_str("正在删除旧的 epub 格式...")));
        PublishCommand::DeleteOldFormat
    } else {
        progress.push(progress_item("uploading", 40, String::from_str("正在上传新的 epub 文件...")));
        PublishCommand::UploadEpub
    };
    assert(progress_seq_view(progress@) =~= seq![progress_view(progress@[0]), progress_view(progress@[1])]);
    PublishStep { progress, command }
}

/// After the server answered the deletion of the old EPUB: the upload follows only when the
/// deletion succeeded.
pub fn after_delete(reply: &ApiReply) -> (r: PublishStep)
    ensures
        reply_ok(*reply) ==> progress_seq_view(r.progress@) == seq![uploading_progress()] && r.command is UploadEpub,
        !reply_ok(*reply) ==> r.progress@.len() == 0 && (r.command matches PublishCommand::Finish(Err(m)) && m@
            == "删除旧 epub 格式失败"@),
{
    let mut progress: Vec<ExportProgress> = Vec::new();
    if response_is_ok(reply) {
        progress.push(progress_item("uploading", 40, String::from_str("正在上传新的 epub 文件...")));
        assert(progress_seq_view(progress@) =~= seq![progress_view(progress@[0])]);
        PublishStep { progress, command: PublishCommand::UploadEpub }
    } else {
        PublishStep { progress, command: PublishCommand::Finish(Err(String::from_str("删除旧 epub 格式失败"))) }
    }
}

/// After the server answered the upload: done, with the book and message it reported, or
/// failed with its message.
pub fn after_upload(reply: &ApiReply) -> (r: PublishStep)
    ensures
        reply_ok(*reply) ==> progress_seq_view(r.progress@) == seq![("uploading"@, 100u8, upload_done_message(*reply))]
            && (r.command matches PublishCommand::Finish(Ok(()))),
        !reply_ok(*reply) ==> r.progress@.len() == 0 && (r.command matches PublishCommand::Finish(Err(m)) && m@
            == upload_refused_message(*reply)),
{
    let mut progress: Vec<ExportProgress> = Vec::new();
    if response_is_ok(reply) {
        let mut message = String::from_str("上传完成: book_id=");
        let id: i64 = match reply.book_id {
            Some(i) => i,
            None => 0,
        };
        push_signed_decimal(&mut message, id);
        push_str(&mut message, ", msg=");
        match &reply.msg {
            Some(m) => push_str(&mut message, m.as_str()),
            None => push_str(&mut message, "上传成功"),
        }
        assert(message@ =~= upload_done_message(*reply));
        progress.push(progress_item("uploading", 100, message));
        assert(progress_seq_view(progress@) =~= seq![progress_view(progress@[0])]);
        PublishStep { progress, command: PublishCommand::Finish(Ok(())) }
    } else {
        let message = match &reply.msg {
            Some(m) => concat_text("上传 epub 失败: ", m.as_str()),
            None => concat_text("上传 epub 失败: ", "未知错误"),
        };
        PublishStep { progress, command: PublishCommand::Finish(Err(message)) }
    }
}

} // verus!
