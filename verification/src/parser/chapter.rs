//! Splitting a novel into chapters at the lines that a title pattern recognises.
use vstd::prelude::*;

use crate::models::Chapter;
use crate::progress::ProgressLog;
use crate::text::{
    char_lines_view, chars_in_lines, concat_text, count_visible, lemma_chars_in_lines_le,
    lemma_visible_le_chars, lines_of, split_lines, string_of_range, trim, trim_bounds, trim_start,
    visible_in_lines,
};

verus! {

/// Lines reported between two progress reports.
pub const PROGRESS_EMIT_INTERVAL: usize = 500;

/// Longest trimmed line, in characters, that can still be a chapter title. Paragraphs of
/// prose that happen to start like a title (a numeral followed by 回, 章, ...) are far longer.
pub const MAX_TITLE_LINE_CHARS: usize = 60;

/// The default title pattern: 序章, 序言, 卷首语, 番外, 上/中/下册 and numbered 章/节/卷/回/... headings,
/// with lookaheads that keep prose such as 回头 or 回去 from counting as a title.
pub const FULL_REGEX: &'static str = r"^(?:(?:序章|序言|引子|前言|卷首语|扉页|楔子|正文卷?|终章|后记|附录|尾声|番外篇?)(?=$|[\s：:，,、．.·\-—（(【\[「《0-9零一二三四五六七八九十第])|番外之|[上中下][部册](?=$|[\s：:])|第?\s{0,4}[\d〇零一二两三四五六七八九十百千万壹贰叁肆伍陆柒捌玖拾佰仟]+?\s{0,4}(?:章|节(?!课)|卷|集(?![合和])|幕(?![前后布])|回(?![合访忆顾应答音到头来去了过])|部(?![分赛游])|篇(?!张))).*";

/// A progress report of the parser: `line_no` of `total_lines` lines are done, the last
/// title seen so far, and how many chapters are complete.
#[derive(Debug, Clone)]
pub struct ParseCheckpoint {
    pub line_no: usize,
    pub total_lines: usize,
    pub current_chapter: String,
    pub total_chapters: usize,
}

impl View for ParseCheckpoint {
    type V = (usize, usize, Seq<char>, usize);

    open spec fn view(&self) -> (usize, usize, Seq<char>, usize) {
        (self.line_no, self.total_lines, self.current_chapter@, self.total_chapters)
    }
}

/// `fancy_regex::Regex`, a compiled pattern, held opaque.
#[verifier::external_type_specification]
#[verifier::external_body]
pub struct ExRegex(fancy_regex::Regex);

/// What `fancy_regex::Regex::new` gives for a pattern: success, or the text of its error.
pub uninterp spec fn regex_compile_outcome(pattern: Seq<char>) -> Result<(), Seq<char>>;

/// What `fancy_regex::Regex::is_match` gives for the regex of `pattern` on `text`: whether
/// it matches, or the text of its error (a backtracking limit reached).
pub uninterp spec fn regex_match_outcome(pattern: Seq<char>, text: Seq<char>) -> Result<bool, Seq<char>>;

/// A compiled title pattern, kept together with the pattern it was compiled from.
pub struct TitleMatcher {
    regex: fancy_regex::Regex,
    source: String,
}

impl TitleMatcher {
    /// The pattern this matcher was compiled from.
    pub closed spec fn pattern(&self) -> Seq<char> {
        self.source@
    }

    /// Compiles `pattern` with `fancy_regex::Regex::new`. Trusted: the outcome is the one
    /// `regex_compile_outcome` names, with the error's text on failure.
    #[verifier::external_body]
    fn compile(pattern: &str) -> (r: Result<TitleMatcher, String>)
        ensures
            match r {
                Ok(m) => regex_compile_outcome(pattern@) is Ok && m.pattern() == pattern@,
                Err(e) => regex_compile_outcome(pattern@) == Err::<(), Seq<char>>(e@),
            },
    {
        match fancy_regex::Regex::new(pattern) {
            Ok(regex) => Ok(TitleMatcher { regex, source: pattern.to_string() }),
            Err(e) => Err(e.to_string()),
        }
    }

    /// Tests `text` with `fancy_regex::Regex::is_match`. Trusted: the outcome is the one
    /// `regex_match_outcome` names for this matcher's pattern, with the error's text on failure.
    #[verifier::external_body]
    fn is_match(&self, text: &str) -> (r: Result<bool, String>)
        ensures
            match r {
                Ok(b) => regex_match_outcome(self.pattern(), text@) == Ok::<bool, Seq<char>>(b),
                Err(e) => regex_match_outcome(self.pattern(), text@) == Err::<bool, Seq<char>>(e@),
            },
    {
        match self.regex.is_match(text) {
            Ok(b) => Ok(b),
            Err(e) => Err(e.to_string()),
        }
    }
}

/// Whether `line` is a title under `pattern`: a short trimmed line whose text, without its
/// leading white space, the pattern matches.
pub open spec fn title_verdict(pattern: Seq<char>, line: Seq<char>) -> Result<bool, Seq<char>> {
    if trim(line).len() > MAX_TITLE_LINE_CHARS {
        Ok(false)
    } else {
        regex_match_outcome(pattern, trim_start(line))
    }
}

/// The title verdicts of all `lines` in order, or the first error met.
pub open spec fn title_flags(pattern: Seq<char>, lines: Seq<Seq<char>>) -> Result<Seq<bool>, Seq<char>>
    decreases lines.len(),
{
    if lines.len() == 0 {
        Ok(seq![])
    } else {
        match title_flags(pattern, lines.drop_last()) {
            Err(e) => Err(e),
            Ok(f) => match title_verdict(pattern, lines.last()) {
                Err(e) => Err(e),
                Ok(b) => Ok(f.push(b)),
            },
        }
    }
}

/// The (0-based) indices of the title lines, in increasing order.
pub open spec fn title_lines(flags: Seq<bool>) -> Seq<int>
    decreases flags.len(),
{
    if flags.len() == 0 {
        seq![]
    } else {
        let earlier = title_lines(flags.drop_last());
        if flags.last() {
            earlier.push(flags.len() - 1)
        } else {
            earlier
        }
    }
}

/// The 1-based last line of the chapter that starts at `starts[k]`: the line before the next
/// title, or the last line of the text.
pub open spec fn chapter_end(line_count: int, starts: Seq<int>, k: int) -> int {
    if k + 1 < starts.len() {
        starts[k + 1]
    } else {
        line_count
    }
}

/// `c` is the `k`-th chapter of `lines` whose titles stand at `starts`.
pub open spec fn chapter_agrees(c: Chapter, lines: Seq<Seq<char>>, starts: Seq<int>, k: int) -> bool {
    let s = starts[k];
    let e = chapter_end(lines.len() as int, starts, k);
    &&& c.id == k + 1
    &&& c.title@ == trim(lines[s])
    &&& c.start_line == s + 1
    &&& c.end_line == e
    &&& c.word_count == visible_in_lines(lines, s, e)
}

/// `cs` are exactly the chapters of `lines` under the title verdicts `flags`.
pub open spec fn chapters_match(cs: Seq<Chapter>, lines: Seq<Seq<char>>, flags: Seq<bool>) -> bool {
    let starts = title_lines(flags);
    &&& cs.len() == starts.len()
    &&& forall|k: int| 0 <= k < cs.len() ==> chapter_agrees(#[trigger] cs[k], lines, starts, k)
}

/// The trimmed text of the last title line under `flags`, or nothing before the first title.
pub open spec fn last_title(lines: Seq<Seq<char>>, flags: Seq<bool>) -> Seq<char> {
    let st = title_lines(flags);
    if st.len() == 0 {
        seq![]
    } else {
        trim(lines[st.last()])
    }
}

/// The progress report after line `k` (1-based) of `lines`: the line reached, the number of
/// lines (at least one), the last title seen so far and how many chapters are complete.
pub open spec fn checkpoint_at(pattern: Seq<char>, lines: Seq<Seq<char>>, k: int) -> (usize, usize, Seq<char>, usize) {
    let total: int = if lines.len() > 1 { lines.len() as int } else { 1 };
    match title_flags(pattern, lines.take(k)) {
        Ok(f) => (
            k as usize,
            total as usize,
            last_title(lines, f),
            (if title_lines(f).len() == 0 {
                0
            } else {
                title_lines(f).len() - 1
            }) as usize,
        ),
        Err(_) => (k as usize, total as usize, seq![], 0),
    }
}

/// The progress reports made while lines `1..=k` are read: one after every
/// `PROGRESS_EMIT_INTERVAL`-th line and one after the last line, in order.
pub open spec fn parse_reports(pattern: Seq<char>, lines: Seq<Seq<char>>, k: int) -> Seq<(usize, usize, Seq<char>, usize)>
    decreases k,
{
    if k <= 0 {
        seq![]
    } else {
        let total: int = if lines.len() > 1 { lines.len() as int } else { 1 };
        parse_reports(pattern, lines, k - 1) + if k % (PROGRESS_EMIT_INTERVAL as int) == 0 || k == total {
            seq![checkpoint_at(pattern, lines, k)]
        } else {
            seq![]
        }
    }
}

/// How many of the first `k` lines are read before matching fails: the longest prefix whose
/// title verdicts are all known.
pub open spec fn lines_read(pattern: Seq<char>, lines: Seq<Seq<char>>, k: int) -> int
    decreases k,
{
    if k <= 0 {
        0
    } else if title_flags(pattern, lines.take(k)) is Ok {
        k
    } else {
        lines_read(pattern, lines, k - 1)
    }
}

proof fn lemma_lines_read_at_failure(pattern: Seq<char>, lines: Seq<Seq<char>>, idx: int, k: int)
    requires
        0 <= idx < k <= lines.len(),
        title_flags(pattern, lines.take(idx)) is Ok,
        title_flags(pattern, lines.take(idx + 1)) is Err,
    ensures
        lines_read(pattern, lines, k) == idx,
    decreases k,
{
    assert(lines.take(k).take(idx + 1) =~= lines.take(idx + 1));
    lemma_title_flags_error_persists(pattern, lines.take(k), idx + 1);
    assert(title_flags(pattern, lines.take(k)) is Err);
    if k > idx + 1 {
        lemma_lines_read_at_failure(pattern, lines, idx, k - 1);
    } else {
        assert(lines_read(pattern, lines, idx) == idx);
    }
}

/// What parsing `content` with `pattern` yields: an error when the pattern does not compile
/// or when matching a line fails, the chapters otherwise.
pub open spec fn parse_outcome(r: Result<Vec<Chapter>, String>, content: Seq<char>, pattern: Seq<char>) -> bool {
    let lines = lines_of(content);
    match regex_compile_outcome(pattern) {
        Err(e) => r matches Err(m) && m@ == "正则表达式无效: "@ + e,
        Ok(_) => match title_flags(pattern, lines) {
            Err(e) => r matches Err(m) && m@ == "正则匹配失败: "@ + e,
            Ok(f) => r matches Ok(cs) && chapters_match(cs@, lines, f),
        },
    }
}

pub proof fn lemma_title_lines_step(flags: Seq<bool>, i: int)
    requires
        0 <= i < flags.len(),
    ensures
        title_lines(flags.take(i + 1)) == if flags[i] {
            title_lines(flags.take(i)).push(i)
        } else {
            title_lines(flags.take(i))
        },
{
    assert(flags.take(i + 1).drop_last() =~= flags.take(i));
}

/// Title line indices are increasing, below the number of lines, and each marks a title.
pub proof fn lemma_title_lines_props(flags: Seq<bool>)
    ensures
        forall|k: int| 0 <= k < title_lines(flags).len() ==> 0 <= #[trigger] title_lines(flags)[k] < flags.len(),
        forall|k: int| 0 <= k < title_lines(flags).len() ==> flags[#[trigger] title_lines(flags)[k]],
        forall|j: int, k: int| 0 <= j < k < title_lines(flags).len() ==> title_lines(flags)[j] < title_lines(flags)[k],
        title_lines(flags).len() <= flags.len(),
    decreases flags.len(),
{
    if flags.len() > 0 {
        lemma_title_lines_props(flags.drop_last());
    }
}

/// Once a line fails to match, the whole text fails with that error.
pub proof fn lemma_title_flags_error_persists(pattern: Seq<char>, lines: Seq<Seq<char>>, i: int)
    requires
        0 <= i <= lines.len(),
        title_flags(pattern, lines.take(i)) is Err,
    ensures
        title_flags(pattern, lines) == title_flags(pattern, lines.take(i)),
    decreases lines.len() - i,
{
    if i == lines.len() {
        assert(lines.take(i) =~= lines);
    } else {
        assert(lines.take(i + 1).drop_last() =~= lines.take(i));
        lemma_title_flags_error_persists(pattern, lines, i + 1);
    }
}

/// Every title line is among `title_lines`.
proof fn lemma_title_lines_complete(flags: Seq<bool>)
    ensures
        forall|i: int| 0 <= i < flags.len() && flags[i] ==> exists|k: int|
            0 <= k < title_lines(flags).len() && #[trigger] title_lines(flags)[k] == i,
    decreases flags.len(),
{
    if flags.len() > 0 {
        let d = flags.drop_last();
        lemma_title_lines_complete(d);
        assert forall|i: int| 0 <= i < flags.len() && flags[i] implies exists|k: int|
            0 <= k < title_lines(flags).len() && #[trigger] title_lines(flags)[k] == i by {
            if i < flags.len() - 1 {
                assert(d[i] == flags[i]);
                let k = choose|k: int| 0 <= k < title_lines(d).len() && #[trigger] title_lines(d)[k] == i;
                assert(title_lines(flags)[k] == i);
            } else {
                let k = title_lines(d).len() as int;
                assert(title_lines(flags)[k] == i);
            }
        }
    }
}

/// Title verdicts: one per line, each the verdict of its line.
pub proof fn lemma_title_flags_per_line(pattern: Seq<char>, lines: Seq<Seq<char>>, flags: Seq<bool>)
    requires
        title_flags(pattern, lines) == Ok::<Seq<bool>, Seq<char>>(flags),
    ensures
        flags.len() == lines.len(),
        forall|i: int| 0 <= i < lines.len() ==> title_verdict(pattern, #[trigger] lines[i]) == Ok::<bool, Seq<char>>(flags[i]),
    decreases lines.len(),
{
    if lines.len() > 0 {
        let d = lines.drop_last();
        let fd = flags.drop_last();
        match title_flags(pattern, d) {
            Ok(f) => {
                lemma_title_flags_per_line(pattern, d, f);
                assert(f =~= fd);
                assert forall|i: int| 0 <= i < lines.len() implies title_verdict(pattern, #[trigger] lines[i]) == Ok::<bool, Seq<char>>(flags[i]) by {
                    if i < lines.len() - 1 {
                        assert(lines[i] == d[i]);
                    }
                }
            },
            Err(_) => {},
        }
    }
}

/// A line longer than `MAX_TITLE_LINE_CHARS` characters, once trimmed, is never a title,
/// whatever the pattern.
pub proof fn law_long_lines_are_never_titles(pattern: Seq<char>, lines: Seq<Seq<char>>, flags: Seq<bool>)
    requires
        title_flags(pattern, lines) == Ok::<Seq<bool>, Seq<char>>(flags),
    ensures
        forall|i: int| 0 <= i < lines.len() && trim(lines[i]).len() > MAX_TITLE_LINE_CHARS ==> !#[trigger] flags[i],
{
    lemma_title_flags_per_line(pattern, lines, flags);
    assert forall|i: int| 0 <= i < lines.len() && trim(lines[i]).len() > MAX_TITLE_LINE_CHARS implies !#[trigger] flags[i] by {
        assert(title_verdict(pattern, lines[i]) == Ok::<bool, Seq<char>>(flags[i]));
    }
}

/// The chapters tile the text from the first title line to its end: they are numbered 1, 2,
/// ... in order, each starts at a title line, is titled by that line trimmed, runs to the line
/// before the next chapter, holds no other title line and counts the visible characters of
/// its lines; the last one ends at the last line, no title line comes before the first, and
/// there is one chapter per title line.
pub proof fn law_chapters_tile_text(cs: Seq<Chapter>, lines: Seq<Seq<char>>, flags: Seq<bool>)
    requires
        flags.len() == lines.len(),
        chapters_match(cs, lines, flags),
    ensures
        cs.len() == title_lines(flags).len(),
        forall|k: int| 0 <= k < cs.len() ==> {
            &&& (#[trigger] cs[k]).id == k + 1
            &&& 1 <= cs[k].start_line <= cs[k].end_line <= lines.len()
            &&& flags[cs[k].start_line - 1]
            &&& forall|i: int| cs[k].start_line <= i < cs[k].end_line ==> !flags[i]
            &&& cs[k].title@ == trim(lines[cs[k].start_line - 1])
            &&& cs[k].word_count == visible_in_lines(lines, cs[k].start_line - 1, cs[k].end_line as int)
        },
        forall|k: int| 0 <= k < cs.len() - 1 ==> #[trigger] cs[k + 1].start_line == cs[k].end_line + 1,
        cs.len() > 0 ==> cs.last().end_line == lines.len(),
        cs.len() > 0 ==> forall|i: int| 0 <= i < cs[0].start_line - 1 ==> !flags[i],
        cs.len() == 0 ==> forall|i: int| 0 <= i < flags.len() ==> !flags[i],
{
    let st = title_lines(flags);
    lemma_title_lines_props(flags);
    lemma_title_lines_complete(flags);
    assert forall|k: int| 0 <= k < cs.len() implies {
        &&& (#[trigger] cs[k]).id == k + 1
        &&& 1 <= cs[k].start_line <= cs[k].end_line <= lines.len()
        &&& flags[cs[k].start_line - 1]
        &&& forall|i: int| cs[k].start_line <= i < cs[k].end_line ==> !flags[i]
        &&& cs[k].title@ == trim(lines[cs[k].start_line - 1])
        &&& cs[k].word_count == visible_in_lines(lines, cs[k].start_line - 1, cs[k].end_line as int)
    } by {
        assert(chapter_agrees(cs[k], lines, st, k));
        assert(flags[st[k]]);
        if k + 1 < st.len() {
            assert(st[k] < st[k + 1]);
        }
        assert forall|i: int| cs[k].start_line <= i < cs[k].end_line implies !flags[i] by {
            if flags[i] {
                let m = choose|m: int| 0 <= m < st.len() && #[trigger] st[m] == i;
                if m <= k {
                    if m < k {
                        assert(st[m] < st[k]);
                    }
                } else if m > k + 1 {
                    assert(st[k + 1] < st[m]);
                }
            }
        }
    }
    assert forall|k: int| 0 <= k < cs.len() - 1 implies #[trigger] cs[k + 1].start_line == cs[k].end_line + 1 by {
        assert(chapter_agrees(cs[k], lines, st, k));
        assert(chapter_agrees(cs[k + 1], lines, st, k + 1));
    }
    if cs.len() > 0 {
        assert(chapter_agrees(cs[cs.len() - 1], lines, st, cs.len() - 1));
        assert(chapter_agrees(cs[0], lines, st, 0));
        assert forall|i: int| 0 <= i < cs[0].start_line - 1 implies !flags[i] by {
            if flags[i] {
                let m = choose|m: int| 0 <= m < st.len() && #[trigger] st[m] == i;
                if m > 0 {
                    assert(st[0] < st[m]);
                }
            }
        }
    } else {
        assert forall|i: int| 0 <= i < flags.len() implies !flags[i] by {
            if flags[i] {
                let m = choose|m: int| 0 <= m < st.len() && #[trigger] st[m] == i;
            }
        }
    }
}

/// Number of non-white-space characters in lines `start_line..=end_line` (1-based).
fn word_count_for(lines: &Vec<Vec<char>>, start_line: usize, end_line: usize) -> (r: usize)
    requires
        1 <= start_line,
        start_line - 1 <= end_line <= lines.len(),
        chars_in_lines(char_lines_view(lines@), 0, lines@.len() as int) <= usize::MAX,
    ensures
        r == visible_in_lines(char_lines_view(lines@), start_line - 1, end_line as int),
{
    let ghost lv = char_lines_view(lines@);
    let mut r: usize = 0;
    let mut i = start_line - 1;
    while i < end_line
        invariant
            1 <= start_line,
            start_line - 1 <= i <= end_line <= lines.len(),
            lv == char_lines_view(lines@),
            chars_in_lines(lv, 0, lines@.len() as int) <= usize::MAX,
            r == visible_in_lines(lv, start_line - 1, i as int),
        decreases end_line - i,
    {
        proof {
            lemma_visible_le_chars(lv, start_line - 1, i + 1);
            lemma_chars_in_lines_le(lv, start_line - 1, i + 1, lines@.len() as int);
        }
        let c = count_visible(&lines[i]);
        r = r + c;
        i = i + 1;
    }
    r
}

/// The chapter whose title is line `start` (0-based) and whose last line is `end` (1-based).
fn make_chapter(lines: &Vec<Vec<char>>, id: u32, start: usize, end: usize) -> (c: Chapter)
    requires
        start < end <= lines.len(),
        chars_in_lines(char_lines_view(lines@), 0, lines@.len() as int) <= usize::MAX,
    ensures
        c.id == id,
        c.title@ == trim(lines@[start as int]@),
        c.start_line == start + 1,
        c.end_line == end,
        c.word_count == visible_in_lines(char_lines_view(lines@), start as int, end as int),
{
    let line = &lines[start];
    let (a, b) = trim_bounds(line);
    let title = string_of_range(line, a, b);
    let word_count = word_count_for(lines, start + 1, end);
    Chapter { id, title, start_line: start + 1, end_line: end, word_count }
}

/// The chapters of `lines` given the title verdict of each line: every title line opens a
/// chapter that runs to the line before the next title, or to the end of the text.
pub fn chapters_from_title_flags(lines: &Vec<Vec<char>>, flags: &Vec<bool>) -> (r: Vec<Chapter>)
    requires
        flags.len() == lines.len(),
        lines.len() <= u32::MAX,
        chars_in_lines(char_lines_view(lines@), 0, lines@.len() as int) <= usize::MAX,
    ensures
        chapters_match(r@, char_lines_view(lines@), flags@),
{
    let ghost lv = char_lines_view(lines@);
    let n = lines.len();
    let mut chapters: Vec<Chapter> = Vec::new();
    let mut current: Option<usize> = None;
    for idx in 0..n
        invariant
            n == lines.len() == flags.len(),
            n <= u32::MAX,
            lv == char_lines_view(lines@),
            chars_in_lines(lv, 0, n as int) <= usize::MAX,
            ({
                let st = title_lines(flags@.take(idx as int));
                &&& current is None <==> st.len() == 0
                &&& current matches Some(s) ==> s == st.last() && s < idx
                &&& chapters.len() == if st.len() == 0 { 0 } else { st.len() - 1 }
                &&& forall|k: int| 0 <= k < chapters.len() ==> chapter_agrees(#[trigger] chapters@[k], lv, st, k)
            }),
    {
        let ghost st = title_lines(flags@.take(idx as int));
        proof {
            lemma_title_lines_step(flags@, idx as int);
            lemma_title_lines_props(flags@.take(idx as int));
        }
        if flags[idx] {
            if let Some(s) = current {
                let id = chapters.len() as u32 + 1;
                let c = make_chapter(lines, id, s, idx);
                chapters.push(c);
            }
            current = Some(idx);
            proof {
                let st2 = st.push(idx as int);
                assert forall|k: int| 0 <= k < chapters.len() implies chapter_agrees(#[trigger] chapters@[k], lv, st2, k) by {
                    if k + 1 < chapters.len() {
                        assert(chapter_agrees(chapters@[k], lv, st, k));
                    }
                }
            }
        }
    }
    proof {
        assert(flags@.take(n as int) =~= flags@);
        lemma_title_lines_props(flags@);
    }
    let ghost st = title_lines(flags@);
    if let Some(s) = current {
        let id = chapters.len() as u32 + 1;
        let c = make_chapter(lines, id, s, n);
        chapters.push(c);
        assert forall|k: int| 0 <= k < chapters.len() implies chapter_agrees(#[trigger] chapters@[k], lv, st, k) by {
            if k + 1 < chapters.len() {
                assert(chapter_agrees(chapters@[k], lv, st, k));
            }
        }
    }
    chapters
}

/// Splits `content` into chapters at the lines that `pattern` recognises as titles, reporting
/// progress to `on_progress` after every `PROGRESS_EMIT_INTERVAL`-th line and after the last
/// line, as far as the lines are read: none when the pattern does not compile.
pub fn parse_chapters_with_progress<P: ProgressLog<ParseCheckpoint>>(
    content: &str,
    pattern: &str,
    on_progress: &mut P,
) -> (r: Result<Vec<Chapter>, String>)
    requires
        lines_of(content@).len() <= u32::MAX,
    ensures
        parse_outcome(r, content@, pattern@),
        regex_compile_outcome(pattern@) is Err ==> final(on_progress).logged() == old(on_progress).logged(),
        regex_compile_outcome(pattern@) is Ok ==> final(on_progress).logged() == old(on_progress).logged()
            + parse_reports(pattern@, lines_of(content@), lines_read(pattern@, lines_of(content@), lines_of(content@).len() as int)),
{
    let ghost start = on_progress.logged();
    let matcher = match TitleMatcher::compile(pattern) {
        Ok(m) => m,
        Err(e) => {
            return Err(concat_text("正则表达式无效: ", e.as_str()));
        },
    };
    let lines = split_lines(content);
    let ghost lv = char_lines_view(lines@);
    let n = lines.len();
    let total_lines = if n > 1 { n } else { 1 };
    let mut flags: Vec<bool> = Vec::new();
    let mut titles_seen: usize = 0;
    let mut current_title = String::new();
    for idx in 0..n
        invariant
            n == lines.len(),
            lv == char_lines_view(lines@),
            lv == lines_of(content@),
            matcher.pattern() == pattern@,
            regex_compile_outcome(pattern@) is Ok,
            total_lines == if n > 1 { n } else { 1 },
            titles_seen <= idx,
            flags.len() == idx,
            title_flags(pattern@, lv.take(idx as int)) == Ok::<Seq<bool>, Seq<char>>(flags@),
            titles_seen == title_lines(flags@).len(),
            current_title@ == last_title(lv, flags@),
            on_progress.logged() == start + parse_reports(pattern@, lv, idx as int),
            start == old(on_progress).logged(),
    {
        let line = &lines[idx];
        let (a, b) = trim_bounds(line);
        proof {
            assert(lv.take(idx + 1).drop_last() =~= lv.take(idx as int));
            assert(lv.take(idx + 1).last() == line@);
            assert(line@.subrange(a as int, line@.len() as int) =~= line@.skip(a as int));
        }
        let is_title = if b - a <= MAX_TITLE_LINE_CHARS {
            let rest = string_of_range(line, a, line.len());
            match matcher.is_match(rest.as_str()) {
                Ok(m) => m,
                Err(e) => {
                    proof {
                        lemma_title_flags_error_persists(pattern@, lv, idx + 1);
                        lemma_lines_read_at_failure(pattern@, lv, idx as int, n as int);
                    }
                    return Err(concat_text("正则匹配失败: ", e.as_str()));
                },
            }
        } else {
            false
        };
        proof {
            lemma_title_lines_props(flags@);
        }
        let ghost before = flags@;
        if is_title {
            titles_seen = titles_seen + 1;
            current_title = string_of_range(line, a, b);
        }
        flags.push(is_title);
        proof {
            assert(flags@.drop_last() =~= before);
            lemma_title_lines_props(flags@);
            if is_title {
                assert(title_lines(flags@) == title_lines(before).push(idx as int));
                assert(lv[idx as int] == line@);
            } else {
                assert(title_lines(flags@) == title_lines(before));
            }
        }
        let line_no = idx + 1;
        let ghost reports_before = on_progress.logged();
        if line_no % PROGRESS_EMIT_INTERVAL == 0 || line_no == total_lines {
            let total_chapters = if titles_seen > 0 { titles_seen - 1 } else { 0 };
            let checkpoint = ParseCheckpoint {
                line_no,
                total_lines,
                current_chapter: current_title.clone(),
                total_chapters,
            };
            assert(checkpoint@ == checkpoint_at(pattern@, lv, line_no as int));
            on_progress.report(checkpoint);
        }
        assert(on_progress.logged() == start + parse_reports(pattern@, lv, line_no as int));
    }
    assert(lv.take(n as int) =~= lv);
    Ok(chapters_from_title_flags(&lines, &flags))
}

} // verus!
