//! Cutting chapter bodies out of a text by their line ranges, for preview and export.
use vstd::prelude::*;

use crate::epub::builder::ExportChapterInput;
use crate::models::ExportChapterRequest;
use crate::text::{char_lines_view, concat_text, lines_of, push_char, push_str, split_lines};

verus! {

/// A chapter to preview, by its 1-based line range in the source text.
#[derive(Debug, Clone)]
pub struct ChapterRef {
    pub title: String,
    pub start_line: usize,
    pub end_line: usize,
}

/// `lines` joined with `'\n'` between them.
pub open spec fn join_lines(lines: Seq<Seq<char>>) -> Seq<char>
    decreases lines.len(),
{
    if lines.len() == 0 {
        seq![]
    } else if lines.len() == 1 {
        lines[0]
    } else {
        join_lines(lines.drop_last()) + seq!['\n'] + lines.last()
    }
}

/// A chapter range is usable when it starts at a line, ends within the text, and does not
/// end before it starts.
pub open spec fn line_range_valid(line_count: int, start_line: int, end_line: int) -> bool {
    start_line != 0 && end_line <= line_count && start_line <= end_line
}

/// The body of the chapter whose title is line `start_line` and whose last line is
/// `end_line` (1-based): the lines after the title, joined.
pub open spec fn chapter_body(lines: Seq<Seq<char>>, start_line: int, end_line: int) -> Seq<char> {
    join_lines(lines.subrange(start_line, end_line))
}

fn join_line_range(lines: &Vec<Vec<char>>, from: usize, to: usize) -> (r: String)
    requires
        from <= to <= lines.len(),
    ensures
        r@ == join_lines(char_lines_view(lines@).subrange(from as int, to as int)),
{
    let ghost lv = char_lines_view(lines@);
    let mut r = String::new();
    let mut k = from;
    assert(lv.subrange(from as int, from as int) =~= Seq::<Seq<char>>::empty());
    while k < to
        invariant
            from <= k <= to <= lines.len(),
            lv == char_lines_view(lines@),
            r@ == join_lines(lv.subrange(from as int, k as int)),
        decreases to - k,
    {
        let ghost before = r@;
        if k > from {
            push_char(&mut r, '\n');
        }
        let line = &lines[k];
        let mut c: usize = 0;
        while c < line.len()
            invariant
                c <= line.len(),
                r@ == before + (if k > from { seq!['\n'] } else { Seq::<char>::empty() }) + line@.take(c as int),
            decreases line.len() - c,
        {
            push_char(&mut r, line[c]);
            c = c + 1;
            assert(line@.take(c as int) =~= line@.take(c - 1).push(line@[c - 1]));
        }
        proof {
            let s = lv.subrange(from as int, k + 1);
            assert(s.drop_last() =~= lv.subrange(from as int, k as int));
            assert(s.last() == line@);
            assert(line@.take(line@.len() as int) =~= line@);
            if k == from {
                assert(r@ =~= line@);
            } else {
                assert(r@ =~= before + seq!['\n'] + line@);
            }
        }
        k = k + 1;
    }
    r
}

/// The body of a chapter to preview, or an error when its line range does not fit the text.
pub fn preview_chapter_body(content: &str, chapter: &ChapterRef) -> (r: Result<String, String>)
    ensures
        ({
            let lines = lines_of(content@);
            if line_range_valid(lines.len() as int, chapter.start_line as int, chapter.end_line as int) {
                r matches Ok(body) && body@ == chapter_body(lines, chapter.start_line as int, chapter.end_line as int)
            } else {
                r matches Err(m) && m@ == "章节行号超出文件范围"@
            }
        }),
{
    let lines = split_lines(content);
    if chapter.start_line == 0 || chapter.end_line > lines.len() || chapter.start_line > chapter.end_line {
        return Err(String::from_str("章节行号超出文件范围"));
    }
    Ok(join_line_range(&lines, chapter.start_line, chapter.end_line))
}

pub open spec fn requests_view(v: Seq<ExportChapterRequest>) -> Seq<(Seq<char>, int, int)> {
    v.map_values(|c: ExportChapterRequest| (c.title@, c.start_line as int, c.end_line as int))
}

/// The error for a chapter whose line range does not fit the text.
pub open spec fn range_error(title: Seq<char>) -> Seq<char> {
    "章节《"@ + title + "》行号超出文件范围"@
}

/// The (title, body) of each requested chapter, or the error of the first one whose line
/// range does not fit the text.
pub open spec fn export_inputs(lines: Seq<Seq<char>>, requests: Seq<(Seq<char>, int, int)>) -> Result<
    Seq<(Seq<char>, Seq<char>)>,
    Seq<char>,
>
    decreases requests.len(),
{
    if requests.len() == 0 {
        Ok(seq![])
    } else {
        match export_inputs(lines, requests.drop_last()) {
            Err(e) => Err(e),
            Ok(done) => {
                let (title, start, end) = requests.last();
                if line_range_valid(lines.len() as int, start, end) {
                    Ok(done.push((title, chapter_body(lines, start, end))))
                } else {
                    Err(range_error(title))
                }
            },
        }
    }
}

pub open spec fn inputs_result_view(r: Result<Vec<ExportChapterInput>, String>) -> Result<
    Seq<(Seq<char>, Seq<char>)>,
    Seq<char>,
> {
    match r {
        Ok(v) => Ok(crate::epub::builder::inputs_view(v@)),
        Err(e) => Err(e@),
    }
}

proof fn lemma_export_inputs_error_persists(lines: Seq<Seq<char>>, reqs: Seq<(Seq<char>, int, int)>, i: int)
    requires
        0 <= i <= reqs.len(),
        export_inputs(lines, reqs.take(i)) is Err,
    ensures
        export_inputs(lines, reqs) == export_inputs(lines, reqs.take(i)),
    decreases reqs.len() - i,
{
    if i == reqs.len() {
        assert(reqs.take(i) =~= reqs);
    } else {
        assert(reqs.take(i + 1).drop_last() =~= reqs.take(i));
        lemma_export_inputs_error_persists(lines, reqs, i + 1);
    }
}

/// Cuts the body of each requested chapter out of `content`: the lines after its title line,
/// through its last line. Fails on the first chapter whose range does not fit the text.
pub fn export_chapter_inputs(content: &str, chapters: &Vec<ExportChapterRequest>) -> (r: Result<
    Vec<ExportChapterInput>,
    String,
>)
    ensures
        inputs_result_view(r) == export_inputs(lines_of(content@), requests_view(chapters@)),
{
    let lines = split_lines(content);
    let ghost lv = char_lines_view(lines@);
    let ghost rv = requests_view(chapters@);
    let mut out: Vec<ExportChapterInput> = Vec::new();
    let mut i: usize = 0;
    assert(rv.take(0) =~= Seq::<(Seq<char>, int, int)>::empty());
    assert(crate::epub::builder::inputs_view(out@) =~= Seq::<(Seq<char>, Seq<char>)>::empty());
    while i < chapters.len()
        invariant
            i <= chapters.len(),
            lv == char_lines_view(lines@),
            lv == lines_of(content@),
            rv == requests_view(chapters@),
            export_inputs(lv, rv.take(i as int)) == Ok::<Seq<(Seq<char>, Seq<char>)>, Seq<char>>(
                crate::epub::builder::inputs_view(out@),
            ),
        decreases chapters.len() - i,
    {
        let c = &chapters[i];
        proof {
            assert(rv.take(i + 1).drop_last() =~= rv.take(i as int));
            assert(rv.take(i + 1).last() == (c.title@, c.start_line as int, c.end_line as int));
        }
        if c.start_line == 0 || c.end_line > lines.len() || c.start_line > c.end_line {
            let mut m = concat_text("章节《", c.title.as_str());
            push_str(&mut m, "》行号超出文件范围");
            proof {
                lemma_export_inputs_error_persists(lv, rv, i + 1);
            }
            return Err(m);
        }
        let body = join_line_range(&lines, c.start_line, c.end_line);
        let ghost before = out@;
        out.push(ExportChapterInput { title: c.title.clone(), body });
        assert(crate::epub::builder::inputs_view(out@) =~= crate::epub::builder::inputs_view(before).push(
            (c.title@, chapter_body(lv, c.start_line as int, c.end_line as int)),
        ));
        i = i + 1;
    }
    assert(rv.take(chapters.len() as int) =~= rv);
    Ok(out)
}

/// Whether the cover gets its title and author drawn: always, except in the "no_text" mode.
pub fn cover_renders_text(mode: Option<&str>) -> (r: bool)
    ensures
        r == !(mode matches Some(m) && m@ == "no_text"@),
{
    match mode {
        Some(m) => !crate::names::same_text(m, "no_text"),
        None => true,
    }
}

} // verus!
