//! The contents of a book (metadata, resources, pages) and their packaging with `epub_builder`.
use vstd::prelude::*;
use vstd::utf8::encode_utf8;

use crate::epub::template::{
    chapter_entries_of, cover_entries_of, optional_text_view, render_chapter_xhtml,
    render_cover_xhtml, rendered, result_view, ChapterRenderContext, CoverRenderContext,
};
use crate::progress::ProgressLog;
use crate::names::{lowered_extension_or, lowered_extension_or_png, same_text};
use crate::text::{
    char_lines_view, concat_text, decimal, is_white_space, lines_of, newline_index, push_decimal,
    push_str, split_lines, string_lines_view, string_of_range, strip_cr, trim, trim_bounds,
    trim_start,
};

verus! {

/// A chapter to export: its title and the text of its body.
pub struct ExportChapterInput {
    pub title: String,
    pub body: String,
}

/// The trimmed non-blank lines of `lines`, in order.
pub open spec fn paragraphs_of_lines(lines: Seq<Seq<char>>) -> Seq<Seq<char>>
    decreases lines.len(),
{
    if lines.len() == 0 {
        seq![]
    } else {
        let earlier = paragraphs_of_lines(lines.drop_last());
        let t = trim(lines.last());
        if t.len() > 0 {
            earlier.push(t)
        } else {
            earlier
        }
    }
}

/// The paragraphs of a chapter body: its lines, trimmed, blank ones left out.
pub open spec fn paragraphs_of(body: Seq<char>) -> Seq<Seq<char>> {
    paragraphs_of_lines(lines_of(body))
}

/// Splits a chapter body into paragraphs, one per non-blank line, trimmed. Preview and
/// export share this rule.
pub fn split_paragraphs(body: &str) -> (r: Vec<String>)
    ensures
        string_lines_view(r@) == paragraphs_of(body@),
{
    let lines = split_lines(body);
    let ghost lv = char_lines_view(lines@);
    let mut r: Vec<String> = Vec::new();
    let mut i: usize = 0;
    while i < lines.len()
        invariant
            i <= lines.len(),
            lv == char_lines_view(lines@),
            lv == lines_of(body@),
            string_lines_view(r@) == paragraphs_of_lines(lv.take(i as int)),
        decreases lines.len() - i,
    {
        let (a, b) = trim_bounds(&lines[i]);
        proof {
            assert(lv.take(i + 1).drop_last() =~= lv.take(i as int));
            assert(lv.take(i + 1).last() == lines@[i as int]@);
        }
        if a < b {
            let p = string_of_range(&lines[i], a, b);
            let ghost before = r@;
            r.push(p);
            assert(string_lines_view(r@) =~= string_lines_view(before).push(p@));
        }
        i = i + 1;
    }
    assert(lv.take(lines.len() as int) =~= lv);
    r
}

proof fn lemma_paragraph_lines_append(x: Seq<Seq<char>>, y: Seq<Seq<char>>)
    ensures
        paragraphs_of_lines(x + y) == paragraphs_of_lines(x) + paragraphs_of_lines(y),
    decreases y.len(),
{
    if y.len() == 0 {
        assert(x + y =~= x);
        assert(paragraphs_of_lines(x) + paragraphs_of_lines(y) =~= paragraphs_of_lines(x));
    } else {
        assert((x + y).drop_last() =~= x + y.drop_last());
        assert((x + y).last() == y.last());
        lemma_paragraph_lines_append(x, y.drop_last());
        let t = trim(y.last());
        if t.len() > 0 {
            assert(paragraphs_of_lines(x + y) =~= paragraphs_of_lines(x) + paragraphs_of_lines(y.drop_last()).push(t));
        }
    }
}

proof fn lemma_trim_without_last_space(x: Seq<char>)
    requires
        x.len() > 0,
        is_white_space(x.last()),
    ensures
        trim(x.drop_last()) == trim(x),
    decreases x.len(),
{
    if x.len() == 1 {
        assert(x.drop_last() =~= Seq::<char>::empty());
        assert(trim_start(x) == trim_start(x.drop_first()));
        assert(x.drop_first() =~= Seq::<char>::empty());
    } else if is_white_space(x[0]) {
        let d = x.drop_first();
        assert(x.drop_last().drop_first() =~= d.drop_last());
        assert(d.last() == x.last());
        lemma_trim_without_last_space(d);
        assert(x.drop_last()[0] == x[0]);
    } else {
        assert(x.drop_last()[0] == x[0]);
        assert(trim_start(x) == x);
        assert(trim_start(x.drop_last()) == x.drop_last());
    }
}

proof fn lemma_newline_index_append(a: Seq<char>, t: Seq<char>)
    ensures
        newline_index(a) < a.len() ==> newline_index(a + t) == newline_index(a),
        newline_index(a) == a.len() ==> newline_index(a + t) == a.len() + newline_index(t),
    decreases a.len(),
{
    lemma_newline_index_le(a);
    if a.len() == 0 {
        assert(a + t =~= t);
    } else {
        assert((a + t)[0] == a[0]);
        if a[0] != '\n' {
            assert((a + t).drop_first() =~= a.drop_first() + t);
            lemma_newline_index_append(a.drop_first(), t);
        }
    }
}

proof fn lemma_newline_index_le(a: Seq<char>)
    ensures
        newline_index(a) <= a.len(),
        newline_index(a) < a.len() ==> a[newline_index(a) as int] == '\n',
        forall|i: int| 0 <= i < newline_index(a) ==> a[i] != '\n',
    decreases a.len(),
{
    if a.len() > 0 && a[0] != '\n' {
        lemma_newline_index_le(a.drop_first());
        assert forall|i: int| 0 <= i < newline_index(a) implies a[i] != '\n' by {
            if i > 0 {
                assert(a[i] == a.drop_first()[i - 1]);
            }
        }
    }
}

/// The paragraphs of one line: its trimmed text, unless that is empty.
pub open spec fn line_paragraph(line: Seq<char>) -> Seq<Seq<char>> {
    if trim(line).len() > 0 {
        seq![trim(line)]
    } else {
        seq![]
    }
}

proof fn lemma_paragraphs_single(line: Seq<char>)
    ensures
        paragraphs_of_lines(seq![line]) == line_paragraph(line),
        paragraphs_of_lines(seq![strip_cr(line)]) == line_paragraph(line),
{
    let none = Seq::<Seq<char>>::empty();
    assert(paragraphs_of_lines(none) == none);
    assert(seq![line].drop_last() =~= none);
    assert(seq![line].last() == line);
    assert(paragraphs_of_lines(seq![line]) =~= line_paragraph(line));
    let c = strip_cr(line);
    assert(seq![c].drop_last() =~= none);
    assert(seq![c].last() == c);
    if line.len() > 0 && line.last() == '\r' {
        lemma_trim_without_last_space(line);
        assert(trim(c) == trim(line));
    }
    assert(paragraphs_of_lines(seq![c]) =~= line_paragraph(line));
}

/// Splitting two texts joined by a line break gives the paragraphs of the first, then those
/// of the second.
pub proof fn law_paragraphs_of_joined_texts(a: Seq<char>, b: Seq<char>)
    ensures
        paragraphs_of(a + seq!['\n'] + b) == paragraphs_of(a) + paragraphs_of(b),
    decreases a.len(),
{
    let j = a + seq!['\n'] + b;
    let t = seq!['\n'] + b;
    assert(j =~= a + t);
    lemma_newline_index_append(a, t);
    lemma_newline_index_le(a);
    let k: int = newline_index(a) as int;
    if k < a.len() {
        // The first line of `a` is the first line of the joined text.
        assert(j.take(k) =~= a.take(k));
        let rest = a.skip(k + 1);
        assert(j.skip(k + 1) =~= rest + seq!['\n'] + b);
        law_paragraphs_of_joined_texts(rest, b);
        let first = seq![strip_cr(a.take(k))];
        assert(lines_of(j) == first + lines_of(j.skip(k + 1)));
        assert(lines_of(a) == first + lines_of(rest));
        lemma_paragraph_lines_append(first, lines_of(j.skip(k + 1)));
        lemma_paragraph_lines_append(first, lines_of(rest));
        assert(paragraphs_of(j) =~= paragraphs_of(a) + paragraphs_of(b));
    } else {
        // `a` holds no line break: it is the first line of the joined text.
        assert(newline_index(t) == 0);
        assert(j.take(k) =~= a);
        assert(j.skip(k + 1) =~= b);
        let first = seq![strip_cr(a)];
        assert(lines_of(j) == first + lines_of(b));
        lemma_paragraph_lines_append(first, lines_of(b));
        lemma_paragraphs_single(a);
        if a.len() == 0 {
            assert(lines_of(a) == Seq::<Seq<char>>::empty());
            assert(paragraphs_of_lines(Seq::<Seq<char>>::empty()) == Seq::<Seq<char>>::empty());
            assert(trim(a) =~= Seq::<char>::empty());
            assert(paragraphs_of(j) =~= paragraphs_of(a) + paragraphs_of(b));
        } else {
            assert(lines_of(a) == seq![a]);
            assert(paragraphs_of(j) =~= paragraphs_of(a) + paragraphs_of(b));
        }
    }
}

proof fn lemma_paragraph_lines_filter(lines: Seq<Seq<char>>)
    ensures
        paragraphs_of_lines(lines) == lines.map_values(|l: Seq<char>| trim(l)).filter(|t: Seq<char>| t.len() > 0),
    decreases lines.len(),
{
    reveal(Seq::filter);
    let f = |l: Seq<char>| trim(l);
    let keep = |t: Seq<char>| t.len() > 0;
    if lines.len() > 0 {
        lemma_paragraph_lines_filter(lines.drop_last());
        let m = lines.map_values(f);
        assert(m.drop_last() =~= lines.drop_last().map_values(f));
        assert(m.last() == trim(lines.last()));
    } else {
        assert(lines.map_values(f) =~= Seq::<Seq<char>>::empty());
    }
}

/// The paragraphs of a chapter body are its lines, trimmed, in order, with exactly the
/// blank ones left out: every non-blank line gives one paragraph, whatever its length.
pub proof fn law_paragraphs_are_the_trimmed_nonblank_lines(body: Seq<char>)
    ensures
        paragraphs_of(body) == lines_of(body).map_values(|l: Seq<char>| trim(l)).filter(
            |t: Seq<char>| t.len() > 0,
        ),
{
    lemma_paragraph_lines_filter(lines_of(body));
}

/// Every paragraph of a chapter body is non-empty and has nothing left to trim.
pub proof fn law_paragraphs_are_trimmed_and_nonblank(body: Seq<char>)
    ensures
        forall|k: int| 0 <= k < paragraphs_of(body).len() ==> {
            &&& (#[trigger] paragraphs_of(body)[k]).len() > 0
            &&& trim(paragraphs_of(body)[k]) == paragraphs_of(body)[k]
        },
{
    lemma_paragraph_lines_trimmed(lines_of(body));
}

proof fn lemma_paragraph_lines_trimmed(lines: Seq<Seq<char>>)
    ensures
        forall|k: int| 0 <= k < paragraphs_of_lines(lines).len() ==> {
            &&& (#[trigger] paragraphs_of_lines(lines)[k]).len() > 0
            &&& trim(paragraphs_of_lines(lines)[k]) == paragraphs_of_lines(lines)[k]
        },
    decreases lines.len(),
{
    if lines.len() > 0 {
        let earlier = paragraphs_of_lines(lines.drop_last());
        lemma_paragraph_lines_trimmed(lines.drop_last());
        crate::text::lemma_trim_idempotent(lines.last());
        assert forall|k: int| 0 <= k < paragraphs_of_lines(lines).len() implies {
            &&& (#[trigger] paragraphs_of_lines(lines)[k]).len() > 0
            &&& trim(paragraphs_of_lines(lines)[k]) == paragraphs_of_lines(lines)[k]
        } by {
            if k < earlier.len() {
                assert(paragraphs_of_lines(lines)[k] == earlier[k]);
            }
        }
    }
}

/// A file of a book: where it goes in the container, its bytes and its media type.
pub struct EpubFile {
    pub path: String,
    pub bytes: Vec<u8>,
    pub mime: String,
}

pub struct EpubFileView {
    pub path: Seq<char>,
    pub bytes: Seq<u8>,
    pub mime: Seq<char>,
}

impl View for EpubFile {
    type V = EpubFileView;

    open spec fn view(&self) -> EpubFileView {
        EpubFileView { path: self.path@, bytes: self.bytes@, mime: self.mime@ }
    }
}

/// A page of a book: its place, its XHTML, its title in the table of contents, and whether
/// it is the cover page.
pub struct EpubPage {
    pub href: String,
    pub xhtml: String,
    pub title: String,
    pub is_cover: bool,
}

pub struct EpubPageView {
    pub href: Seq<char>,
    pub xhtml: Seq<char>,
    pub title: Seq<char>,
    pub is_cover: bool,
}

impl View for EpubPage {
    type V = EpubPageView;

    open spec fn view(&self) -> EpubPageView {
        EpubPageView { href: self.href@, xhtml: self.xhtml@, title: self.title@, is_cover: self.is_cover }
    }
}

/// Everything an EPUB container receives, in the order it receives it: metadata entries,
/// resources, the cover image, and the pages of the reading order.
pub struct EpubPlan {
    pub metadata: Vec<(String, String)>,
    pub resources: Vec<EpubFile>,
    pub cover_image: Option<EpubFile>,
    pub pages: Vec<EpubPage>,
}

pub struct EpubPlanView {
    pub metadata: Seq<(Seq<char>, Seq<char>)>,
    pub resources: Seq<EpubFileView>,
    pub cover_image: Option<EpubFileView>,
    pub pages: Seq<EpubPageView>,
}

pub open spec fn files_view(v: Seq<EpubFile>) -> Seq<EpubFileView> {
    v.map_values(|f: EpubFile| f@)
}

pub open spec fn pages_view(v: Seq<EpubPage>) -> Seq<EpubPageView> {
    v.map_values(|p: EpubPage| p@)
}

pub open spec fn pairs_view(v: Seq<(String, String)>) -> Seq<(Seq<char>, Seq<char>)> {
    v.map_values(|p: (String, String)| (p.0@, p.1@))
}

impl View for EpubPlan {
    type V = EpubPlanView;

    open spec fn view(&self) -> EpubPlanView {
        EpubPlanView {
            metadata: pairs_view(self.metadata@),
            resources: files_view(self.resources@),
            cover_image: match self.cover_image {
                Some(f) => Some(f@),
                None => None,
            },
            pages: pages_view(self.pages@),
        }
    }
}

pub open spec fn plan_result_view(r: Result<EpubPlan, String>) -> Result<EpubPlanView, Seq<char>> {
    match r {
        Ok(p) => Ok(p@),
        Err(e) => Err(e@),
    }
}

/// A file of a chapter style directory, read from disk: its name, and its bytes or the text
/// of the read error.
pub struct StyleFile {
    pub file_name: String,
    pub content: Result<Vec<u8>, String>,
}

/// What a book takes from its chapter style directory: the directory as displayed, its
/// chapter header images (sorted by name), and the optional ornament lines (`None` when the
/// file does not exist).
pub struct StyleAssets {
    pub dir_display: String,
    pub header_images: Vec<StyleFile>,
    pub header_ornament: Option<Result<Vec<u8>, String>>,
    pub footer_ornament: Option<Result<Vec<u8>, String>>,
}

pub open spec fn bytes_result_view(r: Result<Vec<u8>, String>) -> Result<Seq<u8>, Seq<char>> {
    match r {
        Ok(b) => Ok(b@),
        Err(e) => Err(e@),
    }
}

pub open spec fn optional_bytes_view(o: Option<Result<Vec<u8>, String>>) -> Option<Result<Seq<u8>, Seq<char>>> {
    match o {
        Some(r) => Some(bytes_result_view(r)),
        None => None,
    }
}

/// The media type of an image by its (lower-cased) extension: JPEG for "jpg" and "jpeg",
/// PNG otherwise.
pub open spec fn image_mime(extension: Seq<char>) -> Seq<char> {
    if extension == "jpg"@ || extension == "jpeg"@ {
        "image/jpeg"@
    } else {
        "image/png"@
    }
}

/// The media type of an image by its (lower-cased) extension: JPEG for "jpg" and "jpeg",
/// PNG otherwise.
pub fn mime_for_extension(extension: &str) -> (r: &'static str)
    ensures
        r@ == image_mime(extension@),
{
    if same_text(extension, "jpg") || same_text(extension, "jpeg") {
        "image/jpeg"
    } else {
        "image/png"
    }
}

/// The media type of an ornament file by its (lower-cased) extension.
pub open spec fn ornament_mime(extension: Seq<char>) -> Seq<char> {
    if extension == "svg"@ {
        "image/svg+xml"@
    } else if extension == "png"@ {
        "image/png"@
    } else if extension == "jpg"@ || extension == "jpeg"@ {
        "image/jpeg"@
    } else if extension == "webp"@ {
        "image/webp"@
    } else {
        "image/png"@
    }
}

fn ornament_mime_for(extension: &str) -> (r: &'static str)
    ensures
        r@ == ornament_mime(extension@),
{
    if same_text(extension, "svg") {
        "image/svg+xml"
    } else if same_text(extension, "png") {
        "image/png"
    } else if same_text(extension, "jpg") || same_text(extension, "jpeg") {
        "image/jpeg"
    } else if same_text(extension, "webp") {
        "image/webp"
    } else {
        "image/png"
    }
}

/// The resource an optional ornament file becomes: none when the file does not exist, an
/// error when it could not be read.
pub open spec fn ornament_outcome(file_name: Seq<char>, content: Option<Result<Seq<u8>, Seq<char>>>) -> Result<
    Option<EpubFileView>,
    Seq<char>,
> {
    match content {
        None => Ok(None),
        Some(Err(e)) => Err("读取"@ + file_name + "失败: "@ + e),
        Some(Ok(bytes)) => Ok(
            Some(
                EpubFileView {
                    path: "Styles/Decorations/"@ + file_name,
                    bytes,
                    mime: ornament_mime(lowered_extension_or(file_name, "png"@)),
                },
            ),
        ),
    }
}

/// Where a page finds an ornament file.
pub open spec fn ornament_href(file_name: Seq<char>, file: Option<EpubFileView>) -> Option<Seq<char>> {
    match file {
        Some(_) => Some("../Styles/Decorations/"@ + file_name),
        None => None,
    }
}

pub open spec fn file_result_view(r: Result<Option<EpubFile>, String>) -> Result<Option<EpubFileView>, Seq<char>> {
    match r {
        Ok(Some(f)) => Ok(Some(f@)),
        Ok(None) => Ok(None),
        Err(e) => Err(e@),
    }
}

/// The resource made of an optional ornament file of the style directory.
fn ornament_file(file_name: &str, content: &Option<Result<Vec<u8>, String>>) -> (r: Result<Option<EpubFile>, String>)
    ensures
        file_result_view(r) == ornament_outcome(file_name@, optional_bytes_view(*content)),
{
    match content {
        None => Ok(None),
        Some(Err(e)) => {
            let mut m = concat_text("读取", file_name);
            push_str(&mut m, "失败: ");
            push_str(&mut m, e.as_str());
            Err(m)
        },
        Some(Ok(bytes)) => {
            let extension = lowered_extension_or_png(file_name);
            let mime = ornament_mime_for(extension.as_str());
            let path = concat_text("Styles/Decorations/", file_name);
            Ok(Some(EpubFile { path, bytes: bytes.clone(), mime: String::from_str(mime) }))
        },
    }
}

fn ornament_link(file_name: &str, file: &Option<EpubFile>) -> (r: Option<String>)
    ensures
        optional_text_view(r) == ornament_href(file_name@, opt_file_view(*file)),
{
    match file {
        Some(_) => Some(concat_text("../Styles/Decorations/", file_name)),
        None => None,
    }
}

/// The error when a style directory has no chapter header image.
pub open spec fn missing_header_message(dir_display: Seq<char>) -> Seq<char> {
    "找不到章节样式目录 "@ + dir_display + " 下的头图"@
}

fn missing_header_error(dir_display: &str) -> (r: String)
    ensures
        r@ == missing_header_message(dir_display@),
{
    let mut m = concat_text("找不到章节样式目录 ", dir_display);
    push_str(&mut m, " 下的头图");
    m
}

fn read_error(prefix: &str, detail: &String) -> (r: String)
    ensures
        r@ == prefix@ + detail@,
{
    concat_text(prefix, detail.as_str())
}

/// What the single-chapter preview book holds: the style sheet, the chapter header image
/// chosen by `chapter_index` (under a fixed name), the ornaments, and the chapter page.
pub open spec fn preview_plan(
    book_title: Seq<char>,
    chapter_title: Seq<char>,
    body: Seq<char>,
    dir_display: Seq<char>,
    headers: Seq<(Seq<char>, Result<Seq<u8>, Seq<char>>)>,
    header_ornament: Option<Result<Seq<u8>, Seq<char>>>,
    footer_ornament: Option<Result<Seq<u8>, Seq<char>>>,
    css: Result<Seq<u8>, Seq<char>>,
    chapter_index: nat,
    chapter_template: Seq<char>,
) -> Result<EpubPlanView, Seq<char>> {
    if headers.len() == 0 {
        Err(missing_header_message(dir_display))
    } else {
        let header = headers[(chapter_index % headers.len()) as int];
        let extension = lowered_extension_or(header.0, "png"@);
        match css {
            Err(e) => Err("读取样式表失败: "@ + e),
            Ok(css_bytes) => match header.1 {
                Err(e) => Err("读取头图失败: "@ + e),
                Ok(header_bytes) => match ornament_outcome("header-line.png"@, header_ornament) {
                    Err(e) => Err(e),
                    Ok(top) => match ornament_outcome("footer-line.png"@, footer_ornament) {
                        Err(e) => Err(e),
                        Ok(bottom) => {
                            let entries = chapter_entries_of(
                                "chapter1"@,
                                chapter_title,
                                "chapter-variant-standard"@,
                                "../Images/chapter-header."@ + extension,
                                ornament_href("header-line.png"@, top),
                                ornament_href("footer-line.png"@, bottom),
                                paragraphs_of(body),
                            );
                            match rendered("chapter.xhtml"@, chapter_template, entries) {
                                Err(e) => Err(e),
                                Ok(xhtml) => Ok(
                                    EpubPlanView {
                                        metadata: seq![("title"@, book_title)],
                                        resources: seq![
                                            EpubFileView {
                                                path: "Styles/mybooks.css"@,
                                                bytes: css_bytes,
                                                mime: "text/css"@,
                                            },
                                            EpubFileView {
                                                path: "Images/chapter-header."@ + extension,
                                                bytes: header_bytes,
                                                mime: image_mime(extension),
                                            },
                                        ] + optional_file(top) + optional_file(bottom),
                                        cover_image: None,
                                        pages: seq![
                                            EpubPageView {
                                                href: "Text/chapter1.xhtml"@,
                                                xhtml,
                                                title: chapter_title,
                                                is_cover: false,
                                            },
                                        ],
                                    },
                                ),
                            }
                        },
                    },
                },
            },
        }
    }
}

pub open spec fn opt_file_view(o: Option<EpubFile>) -> Option<EpubFileView> {
    match o {
        Some(f) => Some(f@),
        None => None,
    }
}

pub open spec fn optional_file(f: Option<EpubFileView>) -> Seq<EpubFileView> {
    match f {
        Some(v) => seq![v],
        None => seq![],
    }
}

pub open spec fn style_files_view(v: Seq<StyleFile>) -> Seq<(Seq<char>, Result<Seq<u8>, Seq<char>>)> {
    v.map_values(|f: StyleFile| (f.file_name@, bytes_result_view(f.content)))
}

fn push_optional(v: &mut Vec<EpubFile>, f: Option<EpubFile>)
    ensures
        files_view(final(v)@) == files_view(old(v)@) + optional_file(
            match f {
                Some(x) => Some(x@),
                None => None,
            },
        ),
{
    let ghost before = v@;
    match f {
        Some(x) => {
            v.push(x);
            assert(files_view(v@) =~= files_view(before) + optional_file(Some(v@.last()@)));
        },
        None => {
            assert(files_view(v@) =~= files_view(before) + optional_file(None));
        },
    }
}

/// The single-chapter preview book: the chosen header image, the style sheet, the ornaments
/// and the page rendered with `chapter_template`.
pub fn plan_preview_epub(
    book_title: &str,
    chapter_title: &str,
    body_text: &str,
    assets: &StyleAssets,
    css: &Result<Vec<u8>, String>,
    chapter_index: usize,
    chapter_template: &str,
) -> (r: Result<EpubPlan, String>)
    ensures
        plan_result_view(r) == preview_plan(
            book_title@,
            chapter_title@,
            body_text@,
            assets.dir_display@,
            style_files_view(assets.header_images@),
            optional_bytes_view(assets.header_ornament),
            optional_bytes_view(assets.footer_ornament),
            bytes_result_view(*css),
            chapter_index as nat,
            chapter_template@,
        ),
{
    let headers = &assets.header_images;
    if headers.len() == 0 {
        return Err(missing_header_error(assets.dir_display.as_str()));
    }
    let pick = chapter_index % headers.len();
    let header = &headers[pick];
    assert(style_files_view(headers@)[pick as int] == (header.file_name@, bytes_result_view(header.content)));
    let extension = lowered_extension_or_png(header.file_name.as_str());
    let header_mime = mime_for_extension(extension.as_str());
    let css_bytes = match css {
        Err(e) => {
            return Err(read_error("读取样式表失败: ", e));
        },
        Ok(b) => b,
    };
    let header_bytes = match &header.content {
        Err(e) => {
            return Err(read_error("读取头图失败: ", e));
        },
        Ok(b) => b,
    };
    let top = match ornament_file("header-line.png", &assets.header_ornament) {
        Ok(f) => f,
        Err(e) => {
            return Err(e);
        },
    };
    let bottom = match ornament_file("footer-line.png", &assets.footer_ornament) {
        Ok(f) => f,
        Err(e) => {
            return Err(e);
        },
    };
    let header_href = concat_text("../Images/chapter-header.", extension.as_str());
    let ctx = ChapterRenderContext {
        chapter_id: String::from_str("chapter1"),
        title: String::from_str(chapter_title),
        variant_class: String::from_str("chapter-variant-standard"),
        header_image_href: header_href,
        header_ornament_href: ornament_link("header-line.png", &top),
        footer_ornament_href: ornament_link("footer-line.png", &bottom),
        paragraphs: split_paragraphs(body_text),
    };
    let xhtml = match render_chapter_xhtml(chapter_template, &ctx) {
        Ok(x) => x,
        Err(e) => {
            return Err(e);
        },
    };
    let mut metadata: Vec<(String, String)> = Vec::new();
    metadata.push((String::from_str("title"), String::from_str(book_title)));
    let mut resources: Vec<EpubFile> = Vec::new();
    resources.push(
        EpubFile { path: String::from_str("Styles/mybooks.css"), bytes: css_bytes.clone(), mime: String::from_str("text/css") },
    );
    resources.push(
        EpubFile {
            path: concat_text("Images/chapter-header.", extension.as_str()),
            bytes: header_bytes.clone(),
            mime: String::from_str(header_mime),
        },
    );
    let ghost top_view = opt_file_view(top);
    let ghost bottom_view = opt_file_view(bottom);
    let ghost first_two = files_view(resources@);
    push_optional(&mut resources, top);
    push_optional(&mut resources, bottom);
    assert(files_view(resources@) == first_two + optional_file(top_view) + optional_file(bottom_view));
    let mut pages: Vec<EpubPage> = Vec::new();
    pages.push(
        EpubPage {
            href: String::from_str("Text/chapter1.xhtml"),
            xhtml,
            title: String::from_str(chapter_title),
            is_cover: false,
        },
    );
    let ghost css_view = EpubFileView { path: "Styles/mybooks.css"@, bytes: css_bytes@, mime: "text/css"@ };
    let ghost header_view = EpubFileView {
        path: "Images/chapter-header."@ + extension@,
        bytes: header_bytes@,
        mime: image_mime(extension@),
    };
    assert(first_two =~= seq![css_view, header_view]);
    let plan = EpubPlan { metadata, resources, cover_image: None, pages };
    assert(plan@.metadata =~= seq![("title"@, book_title@)]);
    assert(plan@.pages =~= seq![
        EpubPageView { href: "Text/chapter1.xhtml"@, xhtml: pages@[0].xhtml@, title: chapter_title@, is_cover: false },
    ]);
    Ok(plan)
}

/// How far an export has come: a fixed percentage, or `done` of `total` items.
pub enum StepPercent {
    Fixed(u8),
    Fraction { done: usize, total: usize },
}

/// A progress report of an export: its phase, how far it has come, and a message.
pub struct ExportStep {
    pub phase: String,
    pub percent: StepPercent,
    pub message: String,
}

impl View for ExportStep {
    type V = (Seq<char>, StepPercent, Seq<char>);

    open spec fn view(&self) -> (Seq<char>, StepPercent, Seq<char>) {
        (self.phase@, self.percent, self.message@)
    }
}

fn step(phase: &str, percent: StepPercent, message: String) -> (r: ExportStep)
    ensures
        r.phase@ == phase@,
        r.percent == percent,
        r.message@ == message@,
{
    ExportStep { phase: String::from_str(phase), percent, message }
}

/// Where a chapter page finds a header image.
pub open spec fn header_href(file_name: Seq<char>) -> Seq<char> {
    "../Images/"@ + file_name
}

/// The resources made of the chapter header images, or the first read error.
pub open spec fn header_files(headers: Seq<(Seq<char>, Result<Seq<u8>, Seq<char>>)>) -> Result<
    Seq<EpubFileView>,
    Seq<char>,
>
    decreases headers.len(),
{
    if headers.len() == 0 {
        Ok(seq![])
    } else {
        match header_files(headers.drop_last()) {
            Err(e) => Err(e),
            Ok(files) => match headers.last().1 {
                Err(e) => Err("读取头图失败: "@ + e),
                Ok(bytes) => Ok(
                    files.push(
                        EpubFileView {
                            path: "Images/"@ + headers.last().0,
                            bytes,
                            mime: image_mime(lowered_extension_or(headers.last().0, "png"@)),
                        },
                    ),
                ),
            },
        }
    }
}

/// The context of the page of chapter `i`: its id and title, the header image taken in turn
/// from `header_names`, the ornaments, and the paragraphs of its body.
pub open spec fn chapter_page_entries(
    i: int,
    title: Seq<char>,
    body: Seq<char>,
    header_names: Seq<Seq<char>>,
    top: Option<Seq<char>>,
    bottom: Option<Seq<char>>,
) -> Map<Seq<char>, crate::epub::template::TemplateValue> {
    chapter_entries_of(
        "chapter"@ + decimal((i + 1) as nat),
        title,
        "chapter-variant-standard"@,
        header_href(header_names[i % (header_names.len() as int)]),
        top,
        bottom,
        paragraphs_of(body),
    )
}

/// The pages of `chapters` (title, body), or the first rendering error.
pub open spec fn chapter_pages(
    chapters: Seq<(Seq<char>, Seq<char>)>,
    header_names: Seq<Seq<char>>,
    top: Option<Seq<char>>,
    bottom: Option<Seq<char>>,
    chapter_template: Seq<char>,
) -> Result<Seq<EpubPageView>, Seq<char>>
    decreases chapters.len(),
{
    if chapters.len() == 0 {
        Ok(seq![])
    } else {
        let i = chapters.len() - 1;
        match chapter_pages(chapters.drop_last(), header_names, top, bottom, chapter_template) {
            Err(e) => Err(e),
            Ok(pages) => match rendered(
                "chapter.xhtml"@,
                chapter_template,
                chapter_page_entries(i, chapters[i].0, chapters[i].1, header_names, top, bottom),
            ) {
                Err(e) => Err(e),
                Ok(xhtml) => Ok(
                    pages.push(
                        EpubPageView {
                            href: "Text/chapter"@ + decimal((i + 1) as nat) + ".xhtml"@,
                            xhtml,
                            title: chapters[i].0,
                            is_cover: false,
                        },
                    ),
                ),
            },
        }
    }
}

proof fn lemma_chapter_pages_made(
    cs: Seq<(Seq<char>, Seq<char>)>,
    names: Seq<Seq<char>>,
    top: Option<Seq<char>>,
    bottom: Option<Seq<char>>,
    template: Seq<char>,
)
    requires
        chapter_pages(cs, names, top, bottom, template) is Ok,
    ensures
        ({
            let pages = chapter_pages(cs, names, top, bottom, template)->Ok_0;
            &&& pages.len() == cs.len()
            &&& forall|k: int|
                0 <= k < cs.len() ==> {
                    &&& (#[trigger] pages[k]).title == cs[k].0
                    &&& pages[k].href == "Text/chapter"@ + decimal((k + 1) as nat) + ".xhtml"@
                    &&& !pages[k].is_cover
                    &&& rendered(
                        "chapter.xhtml"@,
                        template,
                        chapter_page_entries(k, cs[k].0, cs[k].1, names, top, bottom),
                    ) == Ok::<Seq<char>, Seq<char>>(pages[k].xhtml)
                }
        }),
    decreases cs.len(),
{
    if cs.len() > 0 {
        let rest = cs.drop_last();
        lemma_chapter_pages_made(rest, names, top, bottom, template);
        let pages = chapter_pages(cs, names, top, bottom, template)->Ok_0;
        let earlier = chapter_pages(rest, names, top, bottom, template)->Ok_0;
        assert forall|k: int| 0 <= k < cs.len() - 1 implies (#[trigger] pages[k]) == earlier[k] && cs[k] == rest[k] by {}
    }
}

/// The keys of a chapter page's context are told apart by their first characters.
proof fn lemma_chapter_keys_differ()
    ensures
        "title"@ != "chapter_id"@,
        "title"@ != "variant_class"@,
        "title"@ != "header_image_href"@,
        "title"@ != "header_ornament_href"@,
        "title"@ != "footer_ornament_href"@,
        "title"@ != "paragraphs"@,
        "paragraphs"@ != "chapter_id"@,
        "paragraphs"@ != "variant_class"@,
        "paragraphs"@ != "header_image_href"@,
        "paragraphs"@ != "header_ornament_href"@,
        "paragraphs"@ != "footer_ornament_href"@,
{
    reveal_strlit("title");
    reveal_strlit("chapter_id");
    reveal_strlit("variant_class");
    reveal_strlit("header_image_href");
    reveal_strlit("header_ornament_href");
    reveal_strlit("footer_ornament_href");
    reveal_strlit("paragraphs");
    assert("title"@[0] != "chapter_id"@[0]);
    assert("title"@[0] != "variant_class"@[0]);
    assert("title"@[0] != "header_image_href"@[0]);
    assert("title"@[0] != "header_ornament_href"@[0]);
    assert("title"@[0] != "footer_ornament_href"@[0]);
    assert("title"@[0] != "paragraphs"@[0]);
    assert("paragraphs"@[0] != "chapter_id"@[0]);
    assert("paragraphs"@[0] != "variant_class"@[0]);
    assert("paragraphs"@[0] != "header_image_href"@[0]);
    assert("paragraphs"@[0] != "header_ornament_href"@[0]);
    assert("paragraphs"@[0] != "footer_ornament_href"@[0]);
}

/// A page rendered from the chapter template with a context that gives `title` as the
/// chapter's title and the paragraphs of `body` as its paragraphs.
pub open spec fn chapter_page_shows(xhtml: Seq<char>, template: Seq<char>, title: Seq<char>, body: Seq<char>) -> bool {
    exists|entries: Map<Seq<char>, crate::epub::template::TemplateValue>|
        #![trigger rendered("chapter.xhtml"@, template, entries)]
        {
            &&& rendered("chapter.xhtml"@, template, entries) == Ok::<Seq<char>, Seq<char>>(xhtml)
            &&& entries.dom().contains("title"@)
            &&& entries["title"@] == crate::epub::template::TemplateValue::Text(title)
            &&& entries.dom().contains("paragraphs"@)
            &&& entries["paragraphs"@] == crate::epub::template::TemplateValue::TextList(paragraphs_of(body))
        }
}

proof fn lemma_entries_show(
    xhtml: Seq<char>,
    template: Seq<char>,
    entries: Map<Seq<char>, crate::epub::template::TemplateValue>,
    chapter_id: Seq<char>,
    title: Seq<char>,
    variant: Seq<char>,
    header: Seq<char>,
    top: Option<Seq<char>>,
    bottom: Option<Seq<char>>,
    body: Seq<char>,
)
    requires
        entries == chapter_entries_of(chapter_id, title, variant, header, top, bottom, paragraphs_of(body)),
        rendered("chapter.xhtml"@, template, entries) == Ok::<Seq<char>, Seq<char>>(xhtml),
    ensures
        chapter_page_shows(xhtml, template, title, body),
{
    lemma_chapter_keys_differ();
    assert(entries.dom().contains("title"@));
    assert(entries["title"@] == crate::epub::template::TemplateValue::Text(title));
    assert(entries["paragraphs"@] == crate::epub::template::TemplateValue::TextList(paragraphs_of(body)));
}

/// The full book holds, after the cover page when there is a cover, one page per chapter
/// in order: page `k` is `Text/chapter{k+1}.xhtml`, carries the chapter's own title in the
/// table of contents, and is rendered with that title and the paragraphs of its body.
pub proof fn law_full_book_pages_follow_the_chapters(
    book_title: Seq<char>,
    author: Seq<char>,
    dir_display: Seq<char>,
    headers: Seq<(Seq<char>, Result<Seq<u8>, Seq<char>>)>,
    header_ornament: Option<Result<Seq<u8>, Seq<char>>>,
    footer_ornament: Option<Result<Seq<u8>, Seq<char>>>,
    css: Result<Seq<u8>, Seq<char>>,
    cover: Option<(Seq<u8>, u32, u32)>,
    chapters: Seq<(Seq<char>, Seq<char>)>,
    chapter_template: Seq<char>,
    cover_template: Seq<char>,
)
    requires
        full_plan(
            book_title,
            author,
            dir_display,
            headers,
            header_ornament,
            footer_ornament,
            css,
            cover,
            chapters,
            chapter_template,
            cover_template,
        ) is Ok,
    ensures
        ({
            let p = full_plan(
                book_title,
                author,
                dir_display,
                headers,
                header_ornament,
                footer_ornament,
                css,
                cover,
                chapters,
                chapter_template,
                cover_template,
            )->Ok_0;
            let c: int = if cover is Some { 1 } else { 0 };
            &&& p.pages.len() == c + chapters.len()
            &&& cover is Some ==> p.pages[0].is_cover && p.pages[0].href == "Text/cover.xhtml"@
            &&& forall|k: int|
                0 <= k < chapters.len() ==> {
                    &&& (#[trigger] p.pages[c + k]).title == chapters[k].0
                    &&& p.pages[c + k].href == "Text/chapter"@ + decimal((k + 1) as nat) + ".xhtml"@
                    &&& !p.pages[c + k].is_cover
                    &&& chapter_page_shows(p.pages[c + k].xhtml, chapter_template, chapters[k].0, chapters[k].1)
                }
        }),
{
    let p = full_plan(
        book_title,
        author,
        dir_display,
        headers,
        header_ornament,
        footer_ornament,
        css,
        cover,
        chapters,
        chapter_template,
        cover_template,
    )->Ok_0;
    let top = ornament_outcome("header-line.png"@, header_ornament)->Ok_0;
    let bottom = ornament_outcome("footer-line.png"@, footer_ornament)->Ok_0;
    let names = headers.map_values(|h: (Seq<char>, Result<Seq<u8>, Seq<char>>)| h.0);
    let th = ornament_href("header-line.png"@, top);
    let fh = ornament_href("footer-line.png"@, bottom);
    let cover_pages = cover_part(book_title, cover, cover_template)->Ok_0.1;
    lemma_chapter_pages_made(chapters, names, th, fh, chapter_template);
    let pages = chapter_pages(chapters, names, th, fh, chapter_template)->Ok_0;
    assert(p.pages == cover_pages + pages);
    let c: int = if cover is Some { 1 } else { 0 };
    assert(cover_pages.len() == c);
    assert forall|k: int| 0 <= k < chapters.len() implies {
        &&& (#[trigger] p.pages[c + k]).title == chapters[k].0
        &&& p.pages[c + k].href == "Text/chapter"@ + decimal((k + 1) as nat) + ".xhtml"@
        &&& !p.pages[c + k].is_cover
        &&& chapter_page_shows(p.pages[c + k].xhtml, chapter_template, chapters[k].0, chapters[k].1)
    } by {
        assert(p.pages[c + k] == pages[k]);
        lemma_entries_show(
            pages[k].xhtml,
            chapter_template,
            chapter_page_entries(k, chapters[k].0, chapters[k].1, names, th, fh),
            "chapter"@ + decimal((k + 1) as nat),
            chapters[k].0,
            "chapter-variant-standard"@,
            header_href(names[k % (names.len() as int)]),
            th,
            fh,
            chapters[k].1,
        );
    }
}

/// The preview book holds one page, `Text/chapter1.xhtml`, carrying the chapter title in
/// the table of contents and rendered with the chapter title (not the book's) and the
/// paragraphs of the body.
pub proof fn law_preview_page_shows_the_chapter(
    book_title: Seq<char>,
    chapter_title: Seq<char>,
    body: Seq<char>,
    dir_display: Seq<char>,
    headers: Seq<(Seq<char>, Result<Seq<u8>, Seq<char>>)>,
    header_ornament: Option<Result<Seq<u8>, Seq<char>>>,
    footer_ornament: Option<Result<Seq<u8>, Seq<char>>>,
    css: Result<Seq<u8>, Seq<char>>,
    chapter_index: nat,
    chapter_template: Seq<char>,
)
    requires
        preview_plan(
            book_title,
            chapter_title,
            body,
            dir_display,
            headers,
            header_ornament,
            footer_ornament,
            css,
            chapter_index,
            chapter_template,
        ) is Ok,
    ensures
        ({
            let p = preview_plan(
                book_title,
                chapter_title,
                body,
                dir_display,
                headers,
                header_ornament,
                footer_ornament,
                css,
                chapter_index,
                chapter_template,
            )->Ok_0;
            &&& p.pages.len() == 1
            &&& p.pages[0].title == chapter_title
            &&& p.pages[0].href == "Text/chapter1.xhtml"@
            &&& chapter_page_shows(p.pages[0].xhtml, chapter_template, chapter_title, body)
        }),
{
    let p = preview_plan(
        book_title,
        chapter_title,
        body,
        dir_display,
        headers,
        header_ornament,
        footer_ornament,
        css,
        chapter_index,
        chapter_template,
    )->Ok_0;
    let header = headers[(chapter_index % headers.len()) as int];
    let extension = lowered_extension_or(header.0, "png"@);
    let top = ornament_outcome("header-line.png"@, header_ornament)->Ok_0;
    let bottom = ornament_outcome("footer-line.png"@, footer_ornament)->Ok_0;
    let entries = chapter_entries_of(
        "chapter1"@,
        chapter_title,
        "chapter-variant-standard"@,
        "../Images/chapter-header."@ + extension,
        ornament_href("header-line.png"@, top),
        ornament_href("footer-line.png"@, bottom),
        paragraphs_of(body),
    );
    lemma_entries_show(
        p.pages[0].xhtml,
        chapter_template,
        entries,
        "chapter1"@,
        chapter_title,
        "chapter-variant-standard"@,
        "../Images/chapter-header."@ + extension,
        ornament_href("header-line.png"@, top),
        ornament_href("footer-line.png"@, bottom),
        body,
    );
}

/// The cover image and cover page of a book with a cover (bytes, width, height).
pub open spec fn cover_part(book_title: Seq<char>, cover: Option<(Seq<u8>, u32, u32)>, cover_template: Seq<char>) -> Result<
    (Option<EpubFileView>, Seq<EpubPageView>),
    Seq<char>,
> {
    match cover {
        None => Ok((None, seq![])),
        Some((bytes, width, height)) => match rendered(
            "cover.xhtml"@,
            cover_template,
            cover_entries_of(book_title, "../Images/cover.png"@, width, height),
        ) {
            Err(e) => Err(e),
            Ok(xhtml) => Ok(
                (
                    Some(EpubFileView { path: "Images/cover.png"@, bytes, mime: "image/png"@ }),
                    seq![EpubPageView { href: "Text/cover.xhtml"@, xhtml, title: "封面"@, is_cover: true }],
                ),
            ),
        },
    }
}

/// What the full book holds: title, author and language; the style sheet, ornaments and all
/// header images; the cover image and cover page when there is a cover; a page per chapter.
pub open spec fn full_plan(
    book_title: Seq<char>,
    author: Seq<char>,
    dir_display: Seq<char>,
    headers: Seq<(Seq<char>, Result<Seq<u8>, Seq<char>>)>,
    header_ornament: Option<Result<Seq<u8>, Seq<char>>>,
    footer_ornament: Option<Result<Seq<u8>, Seq<char>>>,
    css: Result<Seq<u8>, Seq<char>>,
    cover: Option<(Seq<u8>, u32, u32)>,
    chapters: Seq<(Seq<char>, Seq<char>)>,
    chapter_template: Seq<char>,
    cover_template: Seq<char>,
) -> Result<EpubPlanView, Seq<char>> {
    if headers.len() == 0 {
        Err(missing_header_message(dir_display))
    } else {
        match css {
            Err(e) => Err("读取样式表失败: "@ + e),
            Ok(css_bytes) => match ornament_outcome("header-line.png"@, header_ornament) {
                Err(e) => Err(e),
                Ok(top) => match ornament_outcome("footer-line.png"@, footer_ornament) {
                    Err(e) => Err(e),
                    Ok(bottom) => match header_files(headers) {
                        Err(e) => Err(e),
                        Ok(images) => match cover_part(book_title, cover, cover_template) {
                            Err(e) => Err(e),
                            Ok((cover_image, cover_pages)) => match chapter_pages(
                                chapters,
                                headers.map_values(|h: (Seq<char>, Result<Seq<u8>, Seq<char>>)| h.0),
                                ornament_href("header-line.png"@, top),
                                ornament_href("footer-line.png"@, bottom),
                                chapter_template,
                            ) {
                                Err(e) => Err(e),
                                Ok(pages) => Ok(
                                    EpubPlanView {
                                        metadata: seq![
                                            ("title"@, book_title),
                                            ("author"@, author),
                                            ("lang"@, "zh"@),
                                        ],
                                        resources: seq![
                                            EpubFileView {
                                                path: "Styles/mybooks.css"@,
                                                bytes: css_bytes,
                                                mime: "text/css"@,
                                            },
                                        ] + optional_file(top) + optional_file(bottom) + images,
                                        cover_image,
                                        pages: cover_pages + pages,
                                    },
                                ),
                            },
                        },
                    },
                },
            },
        }
    }
}

pub open spec fn inputs_view(v: Seq<ExportChapterInput>) -> Seq<(Seq<char>, Seq<char>)> {
    v.map_values(|c: ExportChapterInput| (c.title@, c.body@))
}

pub open spec fn cover_view(cover: Option<(&[u8], u32, u32)>) -> Option<(Seq<u8>, u32, u32)> {
    match cover {
        Some((bytes, width, height)) => Some((bytes@, width, height)),
        None => None,
    }
}

/// The resources and links made of the header images.
fn header_resources(headers: &Vec<StyleFile>) -> (r: Result<(Vec<EpubFile>, Vec<String>), String>)
    ensures
        match r {
            Ok((files, hrefs)) => header_files(style_files_view(headers@)) == Ok::<Seq<EpubFileView>, Seq<char>>(
                files_view(files@),
            ) && hrefs.len() == headers.len() && forall|i: int|
                0 <= i < headers.len() ==> #[trigger] hrefs@[i]@ == header_href(headers@[i].file_name@),
            Err(e) => header_files(style_files_view(headers@)) == Err::<Seq<EpubFileView>, Seq<char>>(e@),
        },
{
    let ghost hv = style_files_view(headers@);
    let mut files: Vec<EpubFile> = Vec::new();
    let mut hrefs: Vec<String> = Vec::new();
    let mut i: usize = 0;
    assert(hv.take(0) =~= Seq::<(Seq<char>, Result<Seq<u8>, Seq<char>>)>::empty());
    assert(files_view(files@) =~= Seq::<EpubFileView>::empty());
    while i < headers.len()
        invariant
            i <= headers.len(),
            hv == style_files_view(headers@),
            header_files(hv.take(i as int)) == Ok::<Seq<EpubFileView>, Seq<char>>(files_view(files@)),
            hrefs.len() == i,
            forall|k: int| 0 <= k < i ==> #[trigger] hrefs@[k]@ == header_href(headers@[k].file_name@),
        decreases headers.len() - i,
    {
        let h = &headers[i];
        proof {
            assert(hv.take(i + 1).drop_last() =~= hv.take(i as int));
            assert(hv.take(i + 1).last() == (h.file_name@, bytes_result_view(h.content)));
        }
        let bytes = match &h.content {
            Err(e) => {
                proof {
                    lemma_header_files_error_persists(hv, i + 1);
                }
                return Err(read_error("读取头图失败: ", e));
            },
            Ok(b) => b,
        };
        let extension = lowered_extension_or_png(h.file_name.as_str());
        let mime = mime_for_extension(extension.as_str());
        let ghost before = files@;
        files.push(
            EpubFile {
                path: concat_text("Images/", h.file_name.as_str()),
                bytes: bytes.clone(),
                mime: String::from_str(mime),
            },
        );
        assert(files_view(files@) =~= files_view(before).push(files@.last()@));
        hrefs.push(concat_text("../Images/", h.file_name.as_str()));
        i = i + 1;
    }
    assert(hv.take(headers.len() as int) =~= hv);
    Ok((files, hrefs))
}

proof fn lemma_header_files_error_persists(hs: Seq<(Seq<char>, Result<Seq<u8>, Seq<char>>)>, i: int)
    requires
        0 <= i <= hs.len(),
        header_files(hs.take(i)) is Err,
    ensures
        header_files(hs) == header_files(hs.take(i)),
    decreases hs.len() - i,
{
    if i == hs.len() {
        assert(hs.take(i) =~= hs);
    } else {
        assert(hs.take(i + 1).drop_last() =~= hs.take(i));
        lemma_header_files_error_persists(hs, i + 1);
    }
}

proof fn lemma_chapter_pages_error_persists(
    cs: Seq<(Seq<char>, Seq<char>)>,
    names: Seq<Seq<char>>,
    top: Option<Seq<char>>,
    bottom: Option<Seq<char>>,
    template: Seq<char>,
    i: int,
)
    requires
        0 <= i <= cs.len(),
        chapter_pages(cs.take(i), names, top, bottom, template) is Err,
    ensures
        chapter_pages(cs, names, top, bottom, template) == chapter_pages(cs.take(i), names, top, bottom, template),
    decreases cs.len() - i,
{
    if i == cs.len() {
        assert(cs.take(i) =~= cs);
    } else {
        assert(cs.take(i + 1).drop_last() =~= cs.take(i));
        lemma_chapter_pages_error_persists(cs, names, top, bottom, template, i + 1);
    }
}

/// The chapter message shown while a chapter is being processed.
pub open spec fn chapter_message(title: Seq<char>) -> Seq<char> {
    "正在处理章节《"@ + title + "》..."@
}

/// The report made before the page of chapter `i` is rendered: `i` done of the number of
/// chapters (at least one), with the chapter's title.
pub open spec fn chapter_step(chapters: Seq<(Seq<char>, Seq<char>)>, i: int) -> (Seq<char>, StepPercent, Seq<char>) {
    let total: int = if chapters.len() > 1 { chapters.len() as int } else { 1 };
    ("chapters"@, StepPercent::Fraction { done: i as usize, total: total as usize }, chapter_message(chapters[i].0))
}

/// The reports made before the pages of the first `k` chapters, in order.
pub open spec fn chapter_steps(chapters: Seq<(Seq<char>, Seq<char>)>, k: int) -> Seq<(Seq<char>, StepPercent, Seq<char>)> {
    Seq::new(k as nat, |i: int| chapter_step(chapters, i))
}

/// How many of the first `k` chapters render: the longest prefix whose pages all render.
pub open spec fn pages_rendered(
    chapters: Seq<(Seq<char>, Seq<char>)>,
    header_names: Seq<Seq<char>>,
    top: Option<Seq<char>>,
    bottom: Option<Seq<char>>,
    chapter_template: Seq<char>,
    k: int,
) -> int
    decreases k,
{
    if k <= 0 {
        0
    } else if chapter_pages(chapters.take(k), header_names, top, bottom, chapter_template) is Ok {
        k
    } else {
        pages_rendered(chapters, header_names, top, bottom, chapter_template, k - 1)
    }
}

/// How many chapters are reported while the full book is planned: none when the book fails
/// before its chapter pages; else each chapter up to and with the first whose page does not
/// render, or all of them.
pub open spec fn chapters_reported(
    book_title: Seq<char>,
    headers: Seq<(Seq<char>, Result<Seq<u8>, Seq<char>>)>,
    header_ornament: Option<Result<Seq<u8>, Seq<char>>>,
    footer_ornament: Option<Result<Seq<u8>, Seq<char>>>,
    css: Result<Seq<u8>, Seq<char>>,
    cover: Option<(Seq<u8>, u32, u32)>,
    chapters: Seq<(Seq<char>, Seq<char>)>,
    chapter_template: Seq<char>,
    cover_template: Seq<char>,
) -> int {
    if headers.len() == 0 || css is Err || header_files(headers) is Err || cover_part(book_title, cover, cover_template) is Err {
        0
    } else {
        match ornament_outcome("header-line.png"@, header_ornament) {
            Err(_) => 0,
            Ok(top) => match ornament_outcome("footer-line.png"@, footer_ornament) {
                Err(_) => 0,
                Ok(bottom) => {
                    let m = pages_rendered(
                        chapters,
                        headers.map_values(|h: (Seq<char>, Result<Seq<u8>, Seq<char>>)| h.0),
                        ornament_href("header-line.png"@, top),
                        ornament_href("footer-line.png"@, bottom),
                        chapter_template,
                        chapters.len() as int,
                    );
                    if m == chapters.len() {
                        m
                    } else {
                        m + 1
                    }
                },
            },
        }
    }
}

proof fn lemma_pages_rendered_at_failure(
    cs: Seq<(Seq<char>, Seq<char>)>,
    names: Seq<Seq<char>>,
    top: Option<Seq<char>>,
    bottom: Option<Seq<char>>,
    template: Seq<char>,
    idx: int,
    k: int,
)
    requires
        0 <= idx < k <= cs.len(),
        chapter_pages(cs.take(idx), names, top, bottom, template) is Ok,
        chapter_pages(cs.take(idx + 1), names, top, bottom, template) is Err,
    ensures
        pages_rendered(cs, names, top, bottom, template, k) == idx,
    decreases k,
{
    assert(cs.take(k).take(idx + 1) =~= cs.take(idx + 1));
    lemma_chapter_pages_error_persists(cs.take(k), names, top, bottom, template, idx + 1);
    assert(chapter_pages(cs.take(k), names, top, bottom, template) is Err);
    if k > idx + 1 {
        lemma_pages_rendered_at_failure(cs, names, top, bottom, template, idx, k - 1);
    } else {
        assert(pages_rendered(cs, names, top, bottom, template, idx) == idx);
    }
}

pub open spec fn cover_step() -> (Seq<char>, StepPercent, Seq<char>) {
    ("cover"@, StepPercent::Fixed(0), "正在准备封面与样式资源..."@)
}

pub open spec fn packing_step() -> (Seq<char>, StepPercent, Seq<char>) {
    ("packaging"@, StepPercent::Fixed(90), "正在打包 EPUB 容器..."@)
}

pub open spec fn packed_step() -> (Seq<char>, StepPercent, Seq<char>) {
    ("packaging"@, StepPercent::Fixed(100), "导出完成"@)
}

/// The full book: what `full_plan` describes. `on_progress` hears of each chapter before
/// its page is rendered (`chapter_steps`), as far as planning gets (`chapters_reported`).
#[verifier::spinoff_prover]
#[verifier::rlimit(40)]
pub fn plan_full_epub<P: ProgressLog<ExportStep>>(
    book_title: &str,
    author: &str,
    assets: &StyleAssets,
    css: &Result<Vec<u8>, String>,
    cover: Option<(&[u8], u32, u32)>,
    chapters: &Vec<ExportChapterInput>,
    chapter_template: &str,
    cover_template: &str,
    on_progress: &mut P,
) -> (r: Result<EpubPlan, String>)
    ensures
        final(on_progress).logged() == old(on_progress).logged() + chapter_steps(
            inputs_view(chapters@),
            chapters_reported(
                book_title@,
                style_files_view(assets.header_images@),
                optional_bytes_view(assets.header_ornament),
                optional_bytes_view(assets.footer_ornament),
                bytes_result_view(*css),
                cover_view(cover),
                inputs_view(chapters@),
                chapter_template@,
                cover_template@,
            ),
        ),
        plan_result_view(r) == full_plan(
            book_title@,
            author@,
            assets.dir_display@,
            style_files_view(assets.header_images@),
            optional_bytes_view(assets.header_ornament),
            optional_bytes_view(assets.footer_ornament),
            bytes_result_view(*css),
            cover_view(cover),
            inputs_view(chapters@),
            chapter_template@,
            cover_template@,
        ),
{
    let ghost hv = style_files_view(assets.header_images@);
    let ghost start = on_progress.logged();
    assert(chapter_steps(inputs_view(chapters@), 0) =~= Seq::<(Seq<char>, StepPercent, Seq<char>)>::empty());
    if assets.header_images.len() == 0 {
        return Err(missing_header_error(assets.dir_display.as_str()));
    }
    let css_bytes = match css {
        Err(e) => {
            return Err(read_error("读取样式表失败: ", e));
        },
        Ok(b) => b,
    };
    let top = match ornament_file("header-line.png", &assets.header_ornament) {
        Ok(f) => f,
        Err(e) => {
            return Err(e);
        },
    };
    let bottom = match ornament_file("footer-line.png", &assets.footer_ornament) {
        Ok(f) => f,
        Err(e) => {
            return Err(e);
        },
    };
    let top_href = ornament_link("header-line.png", &top);
    let bottom_href = ornament_link("footer-line.png", &bottom);
    let (images, hrefs) = match header_resources(&assets.header_images) {
        Ok(x) => x,
        Err(e) => {
            return Err(e);
        },
    };
    let mut metadata: Vec<(String, String)> = Vec::new();
    metadata.push((String::from_str("title"), String::from_str(book_title)));
    metadata.push((String::from_str("author"), String::from_str(author)));
    metadata.push((String::from_str("lang"), String::from_str("zh")));
    let mut resources: Vec<EpubFile> = Vec::new();
    resources.push(
        EpubFile { path: String::from_str("Styles/mybooks.css"), bytes: css_bytes.clone(), mime: String::from_str("text/css") },
    );
    let ghost top_view = opt_file_view(top);
    let ghost bottom_view = opt_file_view(bottom);
    let ghost first = files_view(resources@);
    push_optional(&mut resources, top);
    push_optional(&mut resources, bottom);
    let ghost with_ornaments = files_view(resources@);
    let mut images = images;
    let ghost image_views = files_view(images@);
    resources.append(&mut images);
    assert(files_view(resources@) =~= with_ornaments + image_views);
    let mut pages: Vec<EpubPage> = Vec::new();
    let cover_image = match cover {
        None => {
            assert(pages_view(pages@) =~= Seq::<EpubPageView>::empty());
            None
        },
        Some((bytes, width, height)) => {
            let ctx = CoverRenderContext {
                title: String::from_str(book_title),
                cover_image_href: String::from_str("../Images/cover.png"),
                width,
                height,
            };
            let xhtml = match render_cover_xhtml(cover_template, &ctx) {
                Ok(x) => x,
                Err(e) => {
                    return Err(e);
                },
            };
            pages.push(
                EpubPage {
                    href: String::from_str("Text/cover.xhtml"),
                    xhtml,
                    title: String::from_str("封面"),
                    is_cover: true,
                },
            );
            let mut cover_bytes: Vec<u8> = Vec::new();
            cover_bytes.extend_from_slice(bytes);
            assert(cover_bytes@ =~= bytes@);
            assert(pages_view(pages@) =~= seq![pages@[0]@]);
            let file = EpubFile { path: String::from_str("Images/cover.png"), bytes: cover_bytes, mime: String::from_str("image/png") };
            assert(cover_part(book_title@, cover_view(cover), cover_template@) == Ok::<
                (Option<EpubFileView>, Seq<EpubPageView>),
                Seq<char>,
            >((opt_file_view(Some(file)), pages_view(pages@))));
            Some(file)
        },
    };
    let ghost cover_pages = pages_view(pages@);
    let ghost names = hv.map_values(|h: (Seq<char>, Result<Seq<u8>, Seq<char>>)| h.0);
    let ghost cv = inputs_view(chapters@);
    let ghost top_link = optional_text_view(top_href);
    let ghost bottom_link = optional_text_view(bottom_href);
    let total = if chapters.len() > 1 { chapters.len() } else { 1 };
    let n = hrefs.len();
    let mut i: usize = 0;
    assert(cv.take(0) =~= Seq::<(Seq<char>, Seq<char>)>::empty());
    assert(pages_view(pages@).skip(cover_pages.len() as int) =~= Seq::<EpubPageView>::empty());
    assert(cover_part(book_title@, cover_view(cover), cover_template@) == Ok::<
        (Option<EpubFileView>, Seq<EpubPageView>),
        Seq<char>,
    >((opt_file_view(cover_image), cover_pages)));
    #[verifier::loop_isolation(false)]
    while i < chapters.len()
        invariant
            i <= chapters.len(),
            n == hrefs.len() == assets.header_images.len(),
            n > 0,
            hv == style_files_view(assets.header_images@),
            names == hv.map_values(|h: (Seq<char>, Result<Seq<u8>, Seq<char>>)| h.0),
            forall|k: int| 0 <= k < n ==> #[trigger] hrefs@[k]@ == header_href(names[k]),
            cv == inputs_view(chapters@),
            top_link == optional_text_view(top_href),
            bottom_link == optional_text_view(bottom_href),
            pages.len() == cover_pages.len() + i,
            forall|k: int| 0 <= k < cover_pages.len() ==> #[trigger] pages_view(pages@)[k] == cover_pages[k],
            chapter_pages(cv.take(i as int), names, top_link, bottom_link, chapter_template@) == Ok::<
                Seq<EpubPageView>,
                Seq<char>,
            >(pages_view(pages@).skip(cover_pages.len() as int)),
            on_progress.logged() == start + chapter_steps(cv, i as int),
        decreases chapters.len() - i,
    {
        let chapter = &chapters[i];
        let message = {
            let mut m = concat_text("正在处理章节《", chapter.title.as_str());
            push_str(&mut m, "》...");
            m
        };
        let report = step("chapters", StepPercent::Fraction { done: i, total }, message);
        proof {
            assert(cv[i as int] == (chapter.title@, chapter.body@));
            assert(report@ == chapter_step(cv, i as int));
        }
        on_progress.report(report);
        assert(chapter_steps(cv, i + 1) =~= chapter_steps(cv, i as int).push(chapter_step(cv, i as int)));
        let mut chapter_id = String::from_str("chapter");
        push_decimal(&mut chapter_id, (i + 1) as u64);
        proof {
            assert(names[(i % n) as int] == hv[(i % n) as int].0);
        }
        let ctx = ChapterRenderContext {
            chapter_id,
            title: chapter.title.clone(),
            variant_class: String::from_str("chapter-variant-standard"),
            header_image_href: hrefs[i % n].clone(),
            header_ornament_href: top_href.clone(),
            footer_ornament_href: bottom_href.clone(),
            paragraphs: split_paragraphs(chapter.body.as_str()),
        };
        proof {
            assert(cv.take(i + 1).drop_last() =~= cv.take(i as int));
            assert(cv[i as int] == (chapter.title@, chapter.body@));
        }
        let xhtml = match render_chapter_xhtml(chapter_template, &ctx) {
            Ok(x) => x,
            Err(e) => {
                proof {
                    lemma_chapter_pages_error_persists(cv, names, top_link, bottom_link, chapter_template@, i + 1);
                    assert(cv.take(i + 1).len() - 1 == i);
                    lemma_pages_rendered_at_failure(cv, names, top_link, bottom_link, chapter_template@, i as int, cv.len() as int);
                }
                return Err(e);
            },
        };
        let mut href = String::from_str("Text/chapter");
        push_decimal(&mut href, (i + 1) as u64);
        push_str(&mut href, ".xhtml");
        let ghost before = pages@;
        pages.push(EpubPage { href, xhtml, title: chapter.title.clone(), is_cover: false });
        proof {
            assert(pages_view(pages@) =~= pages_view(before).push(pages@.last()@));
            assert(pages_view(pages@).skip(cover_pages.len() as int) =~= pages_view(before).skip(
                cover_pages.len() as int,
            ).push(pages@.last()@));
        }
        i = i + 1;
    }
    proof {
        assert(cv.take(chapters.len() as int) =~= cv);
        assert(pages_view(pages@) =~= cover_pages + pages_view(pages@).skip(cover_pages.len() as int));
    }
    let plan = EpubPlan { metadata, resources, cover_image, pages };
    assert(plan@.metadata =~= seq![("title"@, book_title@), ("author"@, author@), ("lang"@, "zh"@)]);
    assert(first =~= seq![EpubFileView { path: "Styles/mybooks.css"@, bytes: css_bytes@, mime: "text/css"@ }]);
    assert(plan@.resources == first + optional_file(top_view) + optional_file(bottom_view) + image_views);
    assert(header_files(hv) == Ok::<Seq<EpubFileView>, Seq<char>>(image_views));
    assert(ornament_outcome("header-line.png"@, optional_bytes_view(assets.header_ornament)) == Ok::<Option<EpubFileView>, Seq<char>>(top_view));
    assert(top_link == ornament_href("header-line.png"@, top_view));
    assert(plan@.cover_image == opt_file_view(plan.cover_image));
    Ok(plan)
}

/// An EPUB container being written: an `epub_builder::EpubBuilder` over an in-memory zip
/// archive. (`EpubBuilder`'s parameter is bounded by a trait that its crate keeps private,
/// so the type is held here rather than declared.)
#[verifier::external_body]
pub struct EpubContainer {
    builder: epub_builder::EpubBuilder<epub_builder::ZipLibrary>,
}

/// One thing handed to an EPUB container, by its view.
pub enum ContainerEntry {
    Metadata(Seq<char>, Seq<char>),
    Epub3,
    Resource(EpubFileView),
    CoverImage(EpubFileView),
    Page(EpubPageView),
}

/// What has been handed to a container since it was made, in order: metadata, the EPUB 3.0
/// version, resources, the cover image and pages (the cover page marked as such).
pub uninterp spec fn container_entries(b: EpubContainer) -> Seq<ContainerEntry>;

/// `EpubBuilder::new` over `ZipLibrary::new()`: an empty book in an in-memory zip archive
/// that holds the EPUB `mimetype` and container entries. Trusted: nothing has been handed
/// to a new container.
#[verifier::external_body]
fn new_epub_container() -> (r: Result<EpubContainer, String>)
    ensures
        r matches Ok(b) ==> container_entries(b) == Seq::<ContainerEntry>::empty(),
{
    let zip = match epub_builder::ZipLibrary::new() {
        Ok(z) => z,
        Err(e) => return Err(e.to_string()),
    };
    match epub_builder::EpubBuilder::new(zip) {
        Ok(builder) => Ok(EpubContainer { builder }),
        Err(e) => Err(e.to_string()),
    }
}

/// The metadata keys that `EpubBuilder::metadata` knows.
pub open spec fn metadata_key_known(key: Seq<char>) -> bool {
    ||| key == "author"@
    ||| key == "title"@
    ||| key == "lang"@
    ||| key == "direction"@
    ||| key == "generator"@
    ||| key == "description"@
    ||| key == "subject"@
    ||| key == "license"@
    ||| key == "toc_name"@
}

/// `EpubBuilder::metadata`. Trusted, as its source shows: the keys "title", "author" and
/// "lang" are always accepted, a key it does not know is refused, and an accepted entry is
/// recorded.
#[verifier::external_body]
fn set_metadata(b: &mut EpubContainer, key: &str, value: &str) -> (r: Result<(), String>)
    ensures
        (key@ == "title"@ || key@ == "author"@ || key@ == "lang"@) ==> r is Ok,
        !metadata_key_known(key@) ==> r is Err,
        r is Ok ==> container_entries(*final(b)) == container_entries(*old(b)).push(
            ContainerEntry::Metadata(key@, value@),
        ),
{
    match b.builder.metadata(key, value) {
        Ok(_) => Ok(()),
        Err(e) => Err(e.to_string()),
    }
}

/// `EpubBuilder::epub_version` with EPUB 3.0. Trusted: the version is recorded.
#[verifier::external_body]
fn use_epub3(b: &mut EpubContainer)
    ensures
        container_entries(*final(b)) == container_entries(*old(b)).push(ContainerEntry::Epub3),
{
    b.builder.epub_version(epub_builder::EpubVersion::V30);
}

/// `EpubBuilder::add_resource`: writes a file into the container. Trusted: when it succeeds
/// the file is recorded.
#[verifier::external_body]
fn add_resource(
    b: &mut EpubContainer,
    path: &str,
    bytes: &[u8],
    mime: &str,
) -> (r: Result<(), String>)
    ensures
        r is Ok ==> container_entries(*final(b)) == container_entries(*old(b)).push(
            ContainerEntry::Resource(EpubFileView { path: path@, bytes: bytes@, mime: mime@ }),
        ),
{
    match b.builder.add_resource(path, bytes, mime) {
        Ok(_) => Ok(()),
        Err(e) => Err(e.to_string()),
    }
}

/// `EpubBuilder::add_cover_image`: writes the cover image, marked as such. Trusted: when it
/// succeeds the cover image is recorded.
#[verifier::external_body]
fn add_cover_image(
    b: &mut EpubContainer,
    path: &str,
    bytes: &[u8],
    mime: &str,
) -> (r: Result<(), String>)
    ensures
        r is Ok ==> container_entries(*final(b)) == container_entries(*old(b)).push(
            ContainerEntry::CoverImage(EpubFileView { path: path@, bytes: bytes@, mime: mime@ }),
        ),
{
    match b.builder.add_cover_image(path, bytes, mime) {
        Ok(_) => Ok(()),
        Err(e) => Err(e.to_string()),
    }
}

/// `EpubBuilder::add_content` of a page with a title in the table of contents. Trusted: when
/// it succeeds the page is recorded.
#[verifier::external_body]
fn add_page(
    b: &mut EpubContainer,
    href: &str,
    xhtml: &str,
    title: &str,
) -> (r: Result<(), String>)
    ensures
        r is Ok ==> container_entries(*final(b)) == container_entries(*old(b)).push(
            ContainerEntry::Page(EpubPageView { href: href@, xhtml: xhtml@, title: title@, is_cover: false }),
        ),
{
    match b.builder.add_content(epub_builder::EpubContent::new(href, xhtml.as_bytes()).title(title)) {
        Ok(_) => Ok(()),
        Err(e) => Err(e.to_string()),
    }
}

/// `EpubBuilder::add_content` of the cover page (reference type "cover"). Trusted: when it
/// succeeds the page is recorded as the cover page.
#[verifier::external_body]
fn add_cover_page(
    b: &mut EpubContainer,
    href: &str,
    xhtml: &str,
    title: &str,
) -> (r: Result<(), String>)
    ensures
        r is Ok ==> container_entries(*final(b)) == container_entries(*old(b)).push(
            ContainerEntry::Page(EpubPageView { href: href@, xhtml: xhtml@, title: title@, is_cover: true }),
        ),
{
    match b.builder.add_content(
        epub_builder::EpubContent::new(href, xhtml.as_bytes()).title(title).reftype(
            epub_builder::ReferenceType::Cover,
        ),
    ) {
        Ok(_) => Ok(()),
        Err(e) => Err(e.to_string()),
    }
}

/// The files of the zip archive `bytes`, in the order they are stored: each one's name and
/// its uncompressed content.
pub uninterp spec fn zip_files(bytes: Seq<u8>) -> Seq<(Seq<char>, Seq<u8>)>;

/// The files that the things handed to a container become in its archive, in order: each
/// resource, the cover image and each page under `OEBPS/`, pages as UTF-8.
pub open spec fn container_files(entries: Seq<ContainerEntry>) -> Seq<(Seq<char>, Seq<u8>)>
    decreases entries.len(),
{
    if entries.len() == 0 {
        seq![]
    } else {
        let earlier = container_files(entries.drop_last());
        match entries.last() {
            ContainerEntry::Resource(f) => earlier.push(("OEBPS/"@ + f.path, f.bytes)),
            ContainerEntry::CoverImage(f) => earlier.push(("OEBPS/"@ + f.path, f.bytes)),
            ContainerEntry::Page(p) => earlier.push(("OEBPS/"@ + p.href, encode_utf8(p.xhtml))),
            _ => earlier,
        }
    }
}

/// A path that joins under `OEBPS` as written on every platform: it does not start with
/// `/`, and holds no `\` and no `:`.
pub open spec fn plain_path(p: Seq<char>) -> bool {
    &&& (p.len() > 0 ==> p[0] != '/')
    &&& forall|i: int| 0 <= i < p.len() ==> p[i] != '\\' && p[i] != ':'
}

/// Every file handed to a container has a plain path.
pub open spec fn entry_paths_plain(entries: Seq<ContainerEntry>) -> bool {
    forall|i: int|
        0 <= i < entries.len() ==> match #[trigger] entries[i] {
            ContainerEntry::Resource(f) => plain_path(f.path),
            ContainerEntry::CoverImage(f) => plain_path(f.path),
            ContainerEntry::Page(p) => plain_path(p.href),
            _ => true,
        }
}

/// `s` with `&`, `<` and `>` written as entities: what `html_escape::encode_text` gives.
pub open spec fn text_escaped(s: Seq<char>) -> Seq<char>
    decreases s.len(),
{
    if s.len() == 0 {
        seq![]
    } else {
        text_escaped(s.drop_last()) + if s.last() == '&' {
            "&amp;"@
        } else if s.last() == '<' {
            "&lt;"@
        } else if s.last() == '>' {
            "&gt;"@
        } else {
            seq![s.last()]
        }
    }
}

/// `s` with `&`, `<`, `>` and `"` written as entities: what
/// `html_escape::encode_double_quoted_attribute` gives.
pub open spec fn attribute_escaped(s: Seq<char>) -> Seq<char>
    decreases s.len(),
{
    if s.len() == 0 {
        seq![]
    } else {
        attribute_escaped(s.drop_last()) + if s.last() == '&' {
            "&amp;"@
        } else if s.last() == '<' {
            "&lt;"@
        } else if s.last() == '>' {
            "&gt;"@
        } else if s.last() == '"' {
            "&quot;"@
        } else {
            seq![s.last()]
        }
    }
}

/// `needle` stands somewhere in `hay`, in one piece.
pub open spec fn occurs_in(needle: Seq<u8>, hay: Seq<u8>) -> bool {
    exists|i: int| 0 <= i && i + needle.len() <= hay.len() && #[trigger] hay.subrange(i, i + needle.len()) == needle
}

/// The values handed to a container under the metadata key `key`, in order.
pub open spec fn metadata_values(entries: Seq<ContainerEntry>, key: Seq<char>) -> Seq<Seq<char>>
    decreases entries.len(),
{
    if entries.len() == 0 {
        seq![]
    } else {
        let earlier = metadata_values(entries.drop_last(), key);
        match entries.last() {
            ContainerEntry::Metadata(k, v) => if k == key {
                earlier.push(v)
            } else {
                earlier
            },
            _ => earlier,
        }
    }
}

/// The title a container records: the last value handed as "title", or the empty text.
pub open spec fn recorded_title(entries: Seq<ContainerEntry>) -> Seq<char> {
    let titles = metadata_values(entries, "title"@);
    if titles.len() == 0 {
        seq![]
    } else {
        titles.last()
    }
}

/// The list a container records for a key whose empty value clears it ("author", "lang"):
/// the values handed since the last empty one.
pub open spec fn recorded_list(values: Seq<Seq<char>>) -> Seq<Seq<char>>
    decreases values.len(),
{
    if values.len() == 0 {
        seq![]
    } else if values.last().len() == 0 {
        seq![]
    } else {
        recorded_list(values.drop_last()).push(values.last())
    }
}

/// The EPUB 3.0 version was handed to the container.
pub open spec fn declares_epub3(entries: Seq<ContainerEntry>) -> bool {
    entries.contains(ContainerEntry::Epub3)
}

/// The manifest lines a container writes for the files handed to it, in order: media type,
/// whether it is the cover image, and path.
pub open spec fn manifest_files(entries: Seq<ContainerEntry>) -> Seq<(Seq<char>, bool, Seq<char>)>
    decreases entries.len(),
{
    if entries.len() == 0 {
        seq![]
    } else {
        let earlier = manifest_files(entries.drop_last());
        match entries.last() {
            ContainerEntry::Resource(f) => earlier.push((f.mime, false, f.path)),
            ContainerEntry::CoverImage(f) => earlier.push((f.mime, true, f.path)),
            ContainerEntry::Page(p) => earlier.push(("application/xhtml+xml"@, false, p.href)),
            _ => earlier,
        }
    }
}

/// A text with no line break in it.
pub open spec fn single_line(s: Seq<char>) -> bool {
    forall|i: int| 0 <= i < s.len() ==> s[i] != '\n'
}

/// A manifest line whose media type and path are each one line, the path with no `\`.
pub open spec fn manifest_file_plain(m: (Seq<char>, bool, Seq<char>)) -> bool {
    &&& single_line(m.0)
    &&& single_line(m.2)
    &&& forall|i: int| 0 <= i < m.2.len() ==> m.2[i] != '\\'
}

/// The package document's `<item>` for a file with media type `mime`, identifier `id` and
/// path `href`; `cover_property` adds the EPUB 3 cover-image property.
pub open spec fn manifest_item(mime: Seq<char>, cover_property: bool, id: Seq<char>, href: Seq<char>) -> Seq<char> {
    "<item media-type=\""@ + attribute_escaped(mime) + "\" "@ + (if cover_property {
        "properties=\"cover-image\" "@
    } else {
        Seq::<char>::empty()
    }) + "id=\""@ + attribute_escaped(id) + "\" href=\""@ + attribute_escaped(href) + "\"/>"@
}

/// The package document's `<dc:language>` element for the `i`-th language `name`.
pub open spec fn language_element(epub3: bool, i: nat, name: Seq<char>) -> Seq<char> {
    (if epub3 {
        "<dc:language id=\"epub-creator-"@ + decimal(i) + "\">"@
    } else {
        "<dc:language>"@
    }) + text_escaped(name) + "</dc:language>"@
}

/// The package document's `<dc:creator>` element for the `i`-th author `name`.
pub open spec fn creator_element(epub3: bool, i: nat, name: Seq<char>) -> Seq<char> {
    (if epub3 {
        "<dc:creator id=\"epub-creator-"@ + decimal(i) + "\">"@
    } else {
        "<dc:creator opf:role=\"aut\">"@
    }) + text_escaped(name) + "</dc:creator>"@
}

/// The package document `opf` names the book: its version (3.0 or 2.0), its title, each
/// author and each language, as UTF-8 text.
pub open spec fn package_names(
    opf: Seq<u8>,
    epub3: bool,
    title: Seq<char>,
    authors: Seq<Seq<char>>,
    langs: Seq<Seq<char>>,
) -> bool {
    &&& occurs_in(
        encode_utf8(
            if epub3 {
                "<package version=\"3.0\""@
            } else {
                "<package version=\"2.0\""@
            },
        ),
        opf,
    )
    &&& occurs_in(encode_utf8("<dc:title>"@ + text_escaped(title) + "</dc:title>"@), opf)
    &&& forall|i: int|
        0 <= i < authors.len() ==> occurs_in(encode_utf8(#[trigger] creator_element(epub3, i as nat, authors[i])), opf)
    &&& forall|i: int|
        0 <= i < langs.len() ==> occurs_in(encode_utf8(#[trigger] language_element(epub3, i as nat, langs[i])), opf)
}

/// The package document `opf` of a container that was handed `entries`: it names the book
/// as recorded, and lists each handed file (and the style sheet the container adds) in its
/// manifest with its media type and path; the cover image under the identifier
/// "cover-image", any other file under an identifier the container derives from its path.
pub open spec fn package_document_of(opf: Seq<u8>, entries: Seq<ContainerEntry>) -> bool {
    let epub3 = declares_epub3(entries);
    let files = manifest_files(entries).push(("text/css"@, false, "stylesheet.css"@));
    &&& package_names(
        opf,
        epub3,
        recorded_title(entries),
        recorded_list(metadata_values(entries, "author"@)),
        recorded_list(metadata_values(entries, "lang"@)),
    )
    &&& forall|i: int|
        0 <= i < files.len() && manifest_file_plain(#[trigger] files[i]) ==> if files[i].1 {
            occurs_in(encode_utf8(manifest_item(files[i].0, epub3, "cover-image"@, files[i].2)), opf)
        } else {
            exists|id: Seq<char>| occurs_in(encode_utf8(#[trigger] manifest_item(files[i].0, false, id, files[i].2)), opf)
        }
}

/// The package document among `files`, the archive of a container handed `entries`.
pub open spec fn package_document(files: Seq<(Seq<char>, Seq<u8>)>, entries: Seq<ContainerEntry>) -> Seq<u8> {
    files[4 + container_files(entries).len() as int].1
}

/// The bytes of the EPUB media type, which an EPUB's first file holds.
pub open spec fn epub_mimetype() -> Seq<u8> {
    encode_utf8("application/epub+zip"@)
}

/// `bytes`, whose files are `files`, is an EPUB archive of a container that was handed
/// `entries`: a zip archive (it
/// starts with a local file header) whose first file is `mimetype`, then the container and
/// iBooks descriptions under `META-INF`, then the handed files in order (when their paths
/// are plain), then the style sheet, the package document (`package_document_of`), the NCX
/// and the navigation document that the container writes itself.
pub open spec fn epub_archive_of(bytes: Seq<u8>, files: Seq<(Seq<char>, Seq<u8>)>, entries: Seq<ContainerEntry>) -> bool {
    let handed = container_files(entries);
    let k = handed.len() as int;
    &&& bytes.len() >= 4 && bytes.take(4) == seq![0x50u8, 0x4bu8, 3u8, 4u8]
    &&& files.len() == 3 + handed.len() + 4
    &&& files[0] == ("mimetype"@, epub_mimetype())
    &&& files[1].0 == "META-INF/container.xml"@
    &&& files[2].0 == "META-INF/com.apple.ibooks.display-options.xml"@
    &&& entry_paths_plain(entries) ==> files.subrange(3, 3 + k) == handed
    &&& files[3 + k].0 == "OEBPS/stylesheet.css"@
    &&& files[4 + k].0 == "OEBPS/content.opf"@
    &&& package_document_of(files[4 + k].1, entries)
    &&& files[5 + k].0 == "OEBPS/toc.ncx"@
    &&& files[6 + k].0 == "OEBPS/nav.xhtml"@
}

/// `EpubBuilder::generate` into a byte vector. Trusted, as the crate's source shows: the
/// archive is a zip written by the `zip` crate, with the `mimetype` file first, the
/// `META-INF` descriptions, every file handed to the container in order under `OEBPS/`,
/// then the style sheet, `content.opf`, `toc.ncx` and `nav.xhtml` (`epub_archive_of`).
/// `content.opf` is the crate's package template rendered with the recorded metadata, each
/// value escaped, and a manifest line per file (`package_document_of`). Left unstated: the
/// modification date and the random identifier in `content.opf` (the current time and a
/// fresh UUID), the identifiers derived from paths, and the contents of the style sheet,
/// `toc.ncx` and `nav.xhtml`.
#[verifier::external_body]
fn generate_epub(b: EpubContainer) -> (r: Result<Vec<u8>, String>)
    ensures
        r matches Ok(bytes) ==> epub_archive_of(bytes@, zip_files(bytes@), container_entries(b)),
{
    let mut output: Vec<u8> = Vec::new();
    match b.builder.generate(&mut output) {
        Ok(()) => Ok(output),
        Err(e) => Err(e.to_string()),
    }
}

/// What a container holds once `plan` has been handed to it: its metadata, the EPUB 3.0
/// version, its resources, its cover image and its pages, in that order.
pub open spec fn plan_entries(plan: EpubPlanView) -> Seq<ContainerEntry> {
    plan.metadata.map_values(|m: (Seq<char>, Seq<char>)| ContainerEntry::Metadata(m.0, m.1)) + seq![
        ContainerEntry::Epub3,
    ] + plan.resources.map_values(|f: EpubFileView| ContainerEntry::Resource(f)) + match plan.cover_image {
        Some(f) => seq![ContainerEntry::CoverImage(f)],
        None => Seq::<ContainerEntry>::empty(),
    } + plan.pages.map_values(|p: EpubPageView| ContainerEntry::Page(p))
}

proof fn lemma_metadata_values_skip_tail(a: Seq<ContainerEntry>, b: Seq<ContainerEntry>, key: Seq<char>)
    requires
        forall|i: int| 0 <= i < b.len() ==> !(#[trigger] b[i] is Metadata),
    ensures
        metadata_values(a + b, key) == metadata_values(a, key),
    decreases b.len(),
{
    if b.len() == 0 {
        assert(a + b =~= a);
    } else {
        assert((a + b).drop_last() =~= a + b.drop_last());
        assert(!(b[b.len() - 1] is Metadata));
        lemma_metadata_values_skip_tail(a, b.drop_last(), key);
    }
}

/// A container handed `plan` records exactly the plan's metadata, and the EPUB 3.0 version.
proof fn lemma_plan_entries_metadata(plan: EpubPlanView, key: Seq<char>)
    ensures
        declares_epub3(plan_entries(plan)),
        metadata_values(plan_entries(plan), key) == metadata_values(
            plan.metadata.map_values(|m: (Seq<char>, Seq<char>)| ContainerEntry::Metadata(m.0, m.1)),
            key,
        ),
{
    let head = plan.metadata.map_values(|m: (Seq<char>, Seq<char>)| ContainerEntry::Metadata(m.0, m.1));
    let entries = plan_entries(plan);
    let tail = entries.skip(head.len() as int);
    assert(entries =~= head + tail);
    assert forall|i: int| 0 <= i < tail.len() implies !(#[trigger] tail[i] is Metadata) by {
        assert(tail[i] == entries[head.len() + i]);
    }
    lemma_metadata_values_skip_tail(head, tail, key);
    assert(entries[head.len() as int] == ContainerEntry::Epub3);
}

/// The package document of a container handed a plan with the full book's metadata names
/// the title, the author (unless empty) and the language "zh", as EPUB 3.0.
proof fn lemma_full_book_names(plan: EpubPlanView, opf: Seq<u8>, title: Seq<char>, author: Seq<char>)
    requires
        plan.metadata == seq![("title"@, title), ("author"@, author), ("lang"@, "zh"@)],
        package_document_of(opf, plan_entries(plan)),
    ensures
        package_names(
            opf,
            true,
            title,
            if author.len() == 0 { Seq::<Seq<char>>::empty() } else { seq![author] },
            seq!["zh"@],
        ),
{
    let head = plan.metadata.map_values(|m: (Seq<char>, Seq<char>)| ContainerEntry::Metadata(m.0, m.1));
    lemma_plan_entries_metadata(plan, "title"@);
    lemma_plan_entries_metadata(plan, "author"@);
    lemma_plan_entries_metadata(plan, "lang"@);
    reveal_strlit("title");
    reveal_strlit("author");
    reveal_strlit("lang");
    assert(head =~= seq![
        ContainerEntry::Metadata("title"@, title),
        ContainerEntry::Metadata("author"@, author),
        ContainerEntry::Metadata("lang"@, "zh"@),
    ]);
    assert("title"@[0] != "author"@[0] && "title"@[0] != "lang"@[0] && "author"@[0] != "lang"@[0]);
    reveal_with_fuel(metadata_values, 4);
    assert(head.drop_last() =~= seq![
        ContainerEntry::Metadata("title"@, title),
        ContainerEntry::Metadata("author"@, author),
    ]);
    assert(head.drop_last().drop_last() =~= seq![ContainerEntry::Metadata("title"@, title)]);
    assert(head.drop_last().drop_last().drop_last() =~= Seq::<ContainerEntry>::empty());
    assert(metadata_values(head, "title"@) =~= seq![title]);
    assert(metadata_values(head, "author"@) =~= seq![author]);
    assert(metadata_values(head, "lang"@) =~= seq!["zh"@]);
    reveal_with_fuel(recorded_list, 2);
    assert(seq![author].drop_last() =~= Seq::<Seq<char>>::empty());
    assert(seq!["zh"@].drop_last() =~= Seq::<Seq<char>>::empty());
    reveal_strlit("zh");
    assert(recorded_list(seq!["zh"@]) =~= seq!["zh"@]);
    if author.len() != 0 {
        assert(recorded_list(seq![author]) =~= seq![author]);
    }
}

/// The package document of a container handed a plan with the preview's metadata names
/// the title, as EPUB 3.0, with no author and no language.
proof fn lemma_preview_book_names(plan: EpubPlanView, opf: Seq<u8>, title: Seq<char>)
    requires
        plan.metadata == seq![("title"@, title)],
        package_document_of(opf, plan_entries(plan)),
    ensures
        package_names(opf, true, title, Seq::<Seq<char>>::empty(), Seq::<Seq<char>>::empty()),
{
    let head = plan.metadata.map_values(|m: (Seq<char>, Seq<char>)| ContainerEntry::Metadata(m.0, m.1));
    lemma_plan_entries_metadata(plan, "title"@);
    lemma_plan_entries_metadata(plan, "author"@);
    lemma_plan_entries_metadata(plan, "lang"@);
    reveal_strlit("title");
    reveal_strlit("author");
    reveal_strlit("lang");
    assert(head =~= seq![ContainerEntry::Metadata("title"@, title)]);
    assert("title"@[0] != "author"@[0] && "title"@[0] != "lang"@[0]);
    reveal_with_fuel(metadata_values, 2);
    assert(head.drop_last() =~= Seq::<ContainerEntry>::empty());
    assert(metadata_values(head, "title"@) =~= seq![title]);
    assert(metadata_values(head, "author"@) =~= Seq::<Seq<char>>::empty());
    assert(metadata_values(head, "lang"@) =~= Seq::<Seq<char>>::empty());
}

/// Hands `plan` to a new EPUB container, in its order. A plan with a metadata key the
/// container does not know is refused; any other failure is the container's own.
pub fn fill_epub_container(plan: &EpubPlan) -> (r: Result<EpubContainer, String>)
    ensures
        r matches Ok(b) ==> container_entries(b) == plan_entries(plan@),
        (exists|i: int| 0 <= i < plan.metadata@.len() && !metadata_key_known(#[trigger] plan.metadata@[i].0@))
            ==> r is Err,
{
    let ghost pv = plan@;
    let mut builder = match new_epub_container() {
        Ok(b) => b,
        Err(e) => {
            return Err(e);
        },
    };
    let mut i: usize = 0;
    while i < plan.metadata.len()
        invariant
            i <= plan.metadata.len(),
            pv == plan@,
            forall|j: int| 0 <= j < i ==> metadata_key_known(#[trigger] plan.metadata@[j].0@),
            container_entries(builder) == pv.metadata.take(i as int).map_values(
                |m: (Seq<char>, Seq<char>)| ContainerEntry::Metadata(m.0, m.1),
            ),
        decreases plan.metadata.len() - i,
    {
        let (key, value) = &plan.metadata[i];
        let ghost before = container_entries(builder);
        match set_metadata(&mut builder, key.as_str(), value.as_str()) {
            Ok(()) => {},
            Err(e) => {
                return Err(e);
            },
        }
        proof {
            assert(pv.metadata[i as int] == (key@, value@));
            assert(pv.metadata.take(i + 1) =~= pv.metadata.take(i as int).push((key@, value@)));
            assert(container_entries(builder) =~= pv.metadata.take(i + 1).map_values(
                |m: (Seq<char>, Seq<char>)| ContainerEntry::Metadata(m.0, m.1),
            ));
        }
        i = i + 1;
    }
    assert(pv.metadata.take(plan.metadata.len() as int) =~= pv.metadata);
    use_epub3(&mut builder);
    let ghost head = container_entries(builder);
    let mut i: usize = 0;
    while i < plan.resources.len()
        invariant
            i <= plan.resources.len(),
            pv == plan@,
            container_entries(builder) == head + pv.resources.take(i as int).map_values(
                |f: EpubFileView| ContainerEntry::Resource(f),
            ),
        decreases plan.resources.len() - i,
    {
        let f = &plan.resources[i];
        match add_resource(&mut builder, f.path.as_str(), f.bytes.as_slice(), f.mime.as_str()) {
            Ok(()) => {},
            Err(e) => {
                return Err(e);
            },
        }
        proof {
            assert(pv.resources[i as int] == f@);
            assert(pv.resources.take(i + 1) =~= pv.resources.take(i as int).push(f@));
            assert(container_entries(builder) =~= head + pv.resources.take(i + 1).map_values(
                |f: EpubFileView| ContainerEntry::Resource(f),
            ));
        }
        i = i + 1;
    }
    assert(pv.resources.take(plan.resources.len() as int) =~= pv.resources);
    let ghost with_resources = container_entries(builder);
    if let Some(f) = &plan.cover_image {
        match add_cover_image(&mut builder, f.path.as_str(), f.bytes.as_slice(), f.mime.as_str()) {
            Ok(()) => {},
            Err(e) => {
                return Err(e);
            },
        }
    }
    let ghost middle = container_entries(builder);
    assert(middle =~= with_resources + match pv.cover_image {
        Some(f) => seq![ContainerEntry::CoverImage(f)],
        None => Seq::<ContainerEntry>::empty(),
    });
    let mut i: usize = 0;
    while i < plan.pages.len()
        invariant
            i <= plan.pages.len(),
            pv == plan@,
            container_entries(builder) == middle + pv.pages.take(i as int).map_values(
                |p: EpubPageView| ContainerEntry::Page(p),
            ),
        decreases plan.pages.len() - i,
    {
        let p = &plan.pages[i];
        let outcome = if p.is_cover {
            add_cover_page(&mut builder, p.href.as_str(), p.xhtml.as_str(), p.title.as_str())
        } else {
            add_page(&mut builder, p.href.as_str(), p.xhtml.as_str(), p.title.as_str())
        };
        match outcome {
            Ok(()) => {},
            Err(e) => {
                return Err(e);
            },
        }
        proof {
            assert(pv.pages[i as int] == p@);
            assert(pv.pages.take(i + 1) =~= pv.pages.take(i as int).push(p@));
            assert(container_entries(builder) =~= middle + pv.pages.take(i + 1).map_values(
                |p: EpubPageView| ContainerEntry::Page(p),
            ));
        }
        i = i + 1;
    }
    assert(pv.pages.take(plan.pages.len() as int) =~= pv.pages);
    assert(container_entries(builder) =~= plan_entries(pv));
    Ok(builder)
}

/// Writes `plan` into an EPUB 3 container (`fill_epub_container`) and returns the file. A
/// plan with a metadata key the container does not know is refused. The container dates the
/// book and gives it a random identifier, so the bytes are not stated in full; its files and
/// what its package document holds are (`epub_archive_of`).
fn package_epub(plan: &EpubPlan) -> (r: Result<Vec<u8>, String>)
    ensures
        (exists|i: int| 0 <= i < plan.metadata@.len() && !metadata_key_known(#[trigger] plan.metadata@[i].0@))
            ==> r is Err,
        r matches Ok(bytes) ==> epub_archive_of(bytes@, zip_files(bytes@), plan_entries(plan@)),
{
    let builder = match fill_epub_container(plan) {
        Ok(b) => b,
        Err(e) => {
            return Err(e);
        },
    };
    generate_epub(builder)
}

/// The single-chapter preview book, packaged: an EPUB archive of exactly the planned files
/// (`epub_archive_of`), whose package document names it an EPUB 3.0 book with the book's
/// title, no author and no language, and lists each file with its media type. It fails with the message `preview_plan` gives, or when the container
/// fails.
pub fn build_preview_epub_from_assets(
    book_title: &str,
    chapter_title: &str,
    body_text: &str,
    assets: &StyleAssets,
    css: &Result<Vec<u8>, String>,
    chapter_index: usize,
    chapter_template: &str,
) -> (r: Result<Vec<u8>, String>)
    ensures
        ({
            let planned = preview_plan(
                book_title@,
                chapter_title@,
                body_text@,
                assets.dir_display@,
                style_files_view(assets.header_images@),
                optional_bytes_view(assets.header_ornament),
                optional_bytes_view(assets.footer_ornament),
                bytes_result_view(*css),
                chapter_index as nat,
                chapter_template@,
            );
            &&& planned matches Err(e) ==> r matches Err(m) && m@ == e
            &&& planned matches Ok(p) ==> (r matches Ok(bytes) ==> epub_archive_of(bytes@, zip_files(bytes@), plan_entries(p)))
            &&& planned matches Ok(p) ==> (r matches Ok(bytes) ==> package_names(
                package_document(zip_files(bytes@), plan_entries(p)),
                true,
                book_title@,
                Seq::<Seq<char>>::empty(),
                Seq::<Seq<char>>::empty(),
            ))
            &&& r is Ok ==> planned is Ok
        }),
{
    let plan = match plan_preview_epub(book_title, chapter_title, body_text, assets, css, chapter_index, chapter_template) {
        Ok(p) => p,
        Err(e) => {
            return Err(e);
        },
    };
    let r = package_epub(&plan);
    proof {
        if r is Ok {
            let bytes = r->Ok_0;
            lemma_preview_book_names(plan@, package_document(zip_files(bytes@), plan_entries(plan@)), book_title@);
        }
    }
    r
}

/// The full book, packaged, with progress reports, in order: "cover" at the start, "chapters"
/// before each chapter page as far as planning gets, and, once planned, "packaging" at 90
/// before the container is written and at 100 after it succeeded. The book is an EPUB archive
/// of exactly the planned files (`epub_archive_of`), whose package document names it an EPUB
/// 3.0 book with the book's title, the author (unless empty) and the language "zh", and lists
/// each file with its media type. It fails with the message `full_plan`
/// gives, or when the container fails.
pub fn build_full_epub_from_assets<P: ProgressLog<ExportStep>>(
    book_title: &str,
    author: &str,
    assets: &StyleAssets,
    css: &Result<Vec<u8>, String>,
    cover: Option<(&[u8], u32, u32)>,
    chapters: &Vec<ExportChapterInput>,
    chapter_template: &str,
    cover_template: &str,
    on_progress: &mut P,
) -> (r: Result<Vec<u8>, String>)
    ensures
        ({
            let planned = full_plan(
                book_title@,
                author@,
                assets.dir_display@,
                style_files_view(assets.header_images@),
                optional_bytes_view(assets.header_ornament),
                optional_bytes_view(assets.footer_ornament),
                bytes_result_view(*css),
                cover_view(cover),
                inputs_view(chapters@),
                chapter_template@,
                cover_template@,
            );
            let reported = chapters_reported(
                book_title@,
                style_files_view(assets.header_images@),
                optional_bytes_view(assets.header_ornament),
                optional_bytes_view(assets.footer_ornament),
                bytes_result_view(*css),
                cover_view(cover),
                inputs_view(chapters@),
                chapter_template@,
                cover_template@,
            );
            final(on_progress).logged() == old(on_progress).logged() + seq![cover_step()] + chapter_steps(
                inputs_view(chapters@),
                reported,
            ) + if planned is Ok {
                seq![packing_step()] + if r is Ok {
                    seq![packed_step()]
                } else {
                    Seq::<(Seq<char>, StepPercent, Seq<char>)>::empty()
                }
            } else {
                Seq::<(Seq<char>, StepPercent, Seq<char>)>::empty()
            }
        }),
        ({
            let planned = full_plan(
                book_title@,
                author@,
                assets.dir_display@,
                style_files_view(assets.header_images@),
                optional_bytes_view(assets.header_ornament),
                optional_bytes_view(assets.footer_ornament),
                bytes_result_view(*css),
                cover_view(cover),
                inputs_view(chapters@),
                chapter_template@,
                cover_template@,
            );
            &&& planned matches Err(e) ==> r matches Err(m) && m@ == e
            &&& planned matches Ok(p) ==> (r matches Ok(bytes) ==> epub_archive_of(bytes@, zip_files(bytes@), plan_entries(p)))
            &&& planned matches Ok(p) ==> (r matches Ok(bytes) ==> package_names(
                package_document(zip_files(bytes@), plan_entries(p)),
                true,
                book_title@,
                if author@.len() == 0 { Seq::<Seq<char>>::empty() } else { seq![author@] },
                seq!["zh"@],
            ))
            &&& r is Ok ==> planned is Ok
        }),
{
    let report = step("cover", StepPercent::Fixed(0), String::from_str("正在准备封面与样式资源..."));
    on_progress.report(report);
    let plan = match plan_full_epub(
        book_title,
        author,
        assets,
        css,
        cover,
        chapters,
        chapter_template,
        cover_template,
        on_progress,
    ) {
        Ok(p) => p,
        Err(e) => {
            return Err(e);
        },
    };
    let report = step("packaging", StepPercent::Fixed(90), String::from_str("正在打包 EPUB 容器..."));
    on_progress.report(report);
    let bytes = match package_epub(&plan) {
        Ok(b) => b,
        Err(e) => {
            return Err(e);
        },
    };
    proof {
        lemma_full_book_names(
            plan@,
            package_document(zip_files(bytes@), plan_entries(plan@)),
            book_title@,
            author@,
        );
    }
    let report = step("packaging", StepPercent::Fixed(100), String::from_str("导出完成"));
    on_progress.report(report);
    Ok(bytes)
}

} // verus!
