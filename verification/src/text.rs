//! Character-level text handling shared by the parser and the EPUB builder:
//! Unicode white space, trimming, line splitting, joining and number formatting.
use vstd::prelude::*;

verus! {

/// The Unicode `White_Space` property, which is what `char::is_whitespace` tests.
pub open spec fn is_white_space(c: char) -> bool {
    ||| '\u{9}' <= c <= '\u{d}'
    ||| c == ' '
    ||| c == '\u{85}'
    ||| c == '\u{a0}'
    ||| c == '\u{1680}'
    ||| '\u{2000}' <= c <= '\u{200a}'
    ||| c == '\u{2028}'
    ||| c == '\u{2029}'
    ||| c == '\u{202f}'
    ||| c == '\u{205f}'
    ||| c == '\u{3000}'
}

/// Whether `c` is a Unicode white space character.
pub fn is_white_space_char(c: char) -> (r: bool)
    ensures
        r == is_white_space(c),
{
    ('\u{9}' <= c && c <= '\u{d}') || c == ' ' || c == '\u{85}' || c == '\u{a0}' || c == '\u{1680}'
        || ('\u{2000}' <= c && c <= '\u{200a}') || c == '\u{2028}' || c == '\u{2029}' || c
        == '\u{202f}' || c == '\u{205f}' || c == '\u{3000}'
}

/// `s` without its leading white space.
pub open spec fn trim_start(s: Seq<char>) -> Seq<char>
    decreases s.len(),
{
    if s.len() > 0 && is_white_space(s[0]) {
        trim_start(s.drop_first())
    } else {
        s
    }
}

/// `s` without its trailing white space.
pub open spec fn trim_end(s: Seq<char>) -> Seq<char>
    decreases s.len(),
{
    if s.len() > 0 && is_white_space(s.last()) {
        trim_end(s.drop_last())
    } else {
        s
    }
}

/// `s` without leading and trailing white space (what `str::trim` returns).
pub open spec fn trim(s: Seq<char>) -> Seq<char> {
    trim_end(trim_start(s))
}

/// Number of characters of `s` that are not white space.
pub open spec fn visible_count(s: Seq<char>) -> nat
    decreases s.len(),
{
    if s.len() == 0 {
        0
    } else {
        visible_count(s.drop_last()) + if is_white_space(s.last()) {
            0nat
        } else {
            1nat
        }
    }
}

pub proof fn lemma_trim_start_at(s: Seq<char>, a: int)
    requires
        0 <= a <= s.len(),
        forall|i: int| 0 <= i < a ==> is_white_space(#[trigger] s[i]),
        a == s.len() || !is_white_space(s[a]),
    ensures
        trim_start(s) == s.skip(a),
    decreases a,
{
    if a == 0 {
        assert(s.skip(0) =~= s);
    } else {
        let t = s.drop_first();
        assert forall|i: int| 0 <= i < a - 1 implies is_white_space(#[trigger] t[i]) by {
            assert(t[i] == s[i + 1]);
        }
        lemma_trim_start_at(t, a - 1);
        assert(t.skip(a - 1) =~= s.skip(a));
    }
}

pub proof fn lemma_trim_end_at(s: Seq<char>, b: int)
    requires
        0 <= b <= s.len(),
        forall|i: int| b <= i < s.len() ==> is_white_space(#[trigger] s[i]),
        b == 0 || !is_white_space(s[b - 1]),
    ensures
        trim_end(s) == s.take(b),
    decreases s.len() - b,
{
    if b == s.len() {
        assert(s.take(b) =~= s);
    } else {
        let t = s.drop_last();
        lemma_trim_end_at(t, b);
        assert(t.take(b) =~= s.take(b));
    }
}

pub proof fn lemma_trim_start_no_leading_space(s: Seq<char>)
    ensures
        trim_start(s).len() == 0 || !is_white_space(trim_start(s)[0]),
        trim_start(s).len() <= s.len(),
    decreases s.len(),
{
    if s.len() > 0 && is_white_space(s[0]) {
        lemma_trim_start_no_leading_space(s.drop_first());
    }
}

pub proof fn lemma_trim_end_no_trailing_space(s: Seq<char>)
    ensures
        trim_end(s).len() == 0 || !is_white_space(trim_end(s).last()),
        trim_end(s).len() <= s.len(),
        trim_end(s) =~= s.take(trim_end(s).len() as int),
    decreases s.len(),
{
    if s.len() > 0 && is_white_space(s.last()) {
        lemma_trim_end_no_trailing_space(s.drop_last());
        assert(s.drop_last().take(trim_end(s).len() as int) =~= s.take(trim_end(s).len() as int));
    }
}

/// Trimming twice changes nothing.
pub proof fn lemma_trim_idempotent(s: Seq<char>)
    ensures
        trim(trim(s)) == trim(s),
{
    let t = trim(s);
    let u = trim_start(s);
    lemma_trim_start_no_leading_space(s);
    lemma_trim_end_no_trailing_space(u);
    // `t` is a prefix of `u`, so it starts with the same non-space character.
    if t.len() > 0 {
        assert(t[0] == u[0]);
    }
    lemma_trim_start_at(t, 0);
    assert(t.skip(0) =~= t);
    lemma_trim_end_at(t, t.len() as int);
    assert(t.take(t.len() as int) =~= t);
}

/// The characters of `s`, one element each.
pub fn chars_of(s: &str) -> (r: Vec<char>)
    ensures
        r@ == s@,
{
    let mut r: Vec<char> = Vec::new();
    for c in it: s.chars()
        invariant
            it.seq() == s@,
            r@ == s@.take(it.index() as int),
    {
        r.push(c);
    }
    assert(s@.take(s@.len() as int) =~= s@);
    r
}

/// `String::push`. Trusted, as std documents it: `c` is appended to the end of `s`.
#[verifier::external_body]
pub(crate) fn push_char(s: &mut String, c: char)
    ensures
        final(s)@ == old(s)@.push(c),
{
    s.push(c);
}

/// Appends `other` to `s`.
pub fn push_str(s: &mut String, other: &str)
    ensures
        final(s)@ == old(s)@ + other@,
{
    for c in it: other.chars()
        invariant
            it.seq() == other@,
            s@ == old(s)@ + other@.take(it.index() as int),
    {
        push_char(s, c);
    }
    assert(other@.take(other@.len() as int) =~= other@);
}

/// The string made of `chars[from..to]`.
pub fn string_of_range(chars: &Vec<char>, from: usize, to: usize) -> (r: String)
    requires
        from <= to <= chars.len(),
    ensures
        r@ == chars@.subrange(from as int, to as int),
{
    let mut r = String::new();
    let mut i = from;
    while i < to
        invariant
            from <= i <= to <= chars.len(),
            r@ == chars@.subrange(from as int, i as int),
        decreases to - i,
    {
        push_char(&mut r, chars[i]);
        i = i + 1;
        assert(r@ =~= chars@.subrange(from as int, i as int));
    }
    r
}

/// The string made of all of `chars`.
pub fn string_of(chars: &Vec<char>) -> (r: String)
    ensures
        r@ == chars@,
{
    let r = string_of_range(chars, 0, chars.len());
    assert(chars@.subrange(0, chars@.len() as int) =~= chars@);
    r
}

/// The positions that delimit `trim(chars)` and `trim_start(chars)` inside `chars`.
pub fn trim_bounds(chars: &Vec<char>) -> (r: (usize, usize))
    ensures
        r.0 <= r.1 <= chars.len(),
        trim_start(chars@) == chars@.skip(r.0 as int),
        trim(chars@) == chars@.subrange(r.0 as int, r.1 as int),
{
    let n = chars.len();
    let mut a: usize = 0;
    while a < n && is_white_space_char(chars[a])
        invariant
            a <= n == chars.len(),
            forall|i: int| 0 <= i < a ==> is_white_space(#[trigger] chars@[i]),
        decreases n - a,
    {
        a = a + 1;
    }
    proof {
        lemma_trim_start_at(chars@, a as int);
    }
    let mut b: usize = n;
    while b > a && is_white_space_char(chars[b - 1])
        invariant
            a <= b <= n == chars.len(),
            forall|i: int| b <= i < n ==> is_white_space(#[trigger] chars@[i]),
        decreases b,
    {
        b = b - 1;
    }
    proof {
        let t = chars@.skip(a as int);
        let k = b - a;
        assert forall|i: int| k <= i < t.len() implies is_white_space(#[trigger] t[i]) by {
            assert(t[i] == chars@[i + a]);
        }
        if k > 0 {
            assert(t[k - 1] == chars@[b - 1]);
        }
        lemma_trim_end_at(t, k);
        assert(t.take(k) =~= chars@.subrange(a as int, b as int));
    }
    (a, b)
}

/// Number of non-white-space characters in `chars`.
pub fn count_visible(chars: &Vec<char>) -> (r: usize)
    ensures
        r == visible_count(chars@),
{
    let mut r: usize = 0;
    let mut i: usize = 0;
    while i < chars.len()
        invariant
            i <= chars.len(),
            r <= i,
            r == visible_count(chars@.take(i as int)),
        decreases chars.len() - i,
    {
        assert(chars@.take(i + 1).drop_last() =~= chars@.take(i as int));
        if !is_white_space_char(chars[i]) {
            r = r + 1;
        }
        i = i + 1;
    }
    assert(chars@.take(chars@.len() as int) =~= chars@);
    r
}

/// Index of the first `'\n'` in `s`, or `s.len()` when there is none.
pub open spec fn newline_index(s: Seq<char>) -> nat
    decreases s.len(),
{
    if s.len() == 0 || s[0] == '\n' {
        0
    } else {
        1 + newline_index(s.drop_first())
    }
}

/// `s` without one trailing carriage return.
pub open spec fn strip_cr(s: Seq<char>) -> Seq<char> {
    if s.len() > 0 && s.last() == '\r' {
        s.drop_last()
    } else {
        s
    }
}

/// The lines of `s`, as `str::lines` yields them: split at `'\n'`, a `'\r'` right
/// before a `'\n'` dropped, and no empty line after a final `'\n'`.
pub open spec fn lines_of(s: Seq<char>) -> Seq<Seq<char>>
    decreases s.len(),
{
    if s.len() == 0 {
        seq![]
    } else {
        let k = newline_index(s);
        if k < s.len() {
            seq![strip_cr(s.take(k as int))] + lines_of(s.skip(k as int + 1))
        } else {
            seq![s]
        }
    }
}

/// Total number of characters in `lines[from..to]`.
pub open spec fn chars_in_lines(lines: Seq<Seq<char>>, from: int, to: int) -> nat
    decreases to - from,
{
    if to <= from {
        0
    } else {
        chars_in_lines(lines, from, to - 1) + lines[to - 1].len()
    }
}

/// Number of non-white-space characters in `lines[from..to]`.
pub open spec fn visible_in_lines(lines: Seq<Seq<char>>, from: int, to: int) -> nat
    decreases to - from,
{
    if to <= from {
        0
    } else {
        visible_in_lines(lines, from, to - 1) + visible_count(lines[to - 1])
    }
}

pub open spec fn char_lines_view(v: Seq<Vec<char>>) -> Seq<Seq<char>> {
    v.map_values(|l: Vec<char>| l@)
}

pub open spec fn string_lines_view(v: Seq<String>) -> Seq<Seq<char>> {
    v.map_values(|l: String| l@)
}

pub proof fn lemma_newline_index_at(s: Seq<char>, k: int)
    requires
        0 <= k <= s.len(),
        forall|i: int| 0 <= i < k ==> #[trigger] s[i] != '\n',
        k == s.len() || s[k] == '\n',
    ensures
        newline_index(s) == k,
    decreases k,
{
    if k > 0 {
        let t = s.drop_first();
        assert forall|i: int| 0 <= i < k - 1 implies #[trigger] t[i] != '\n' by {
            assert(t[i] == s[i + 1]);
        }
        lemma_newline_index_at(t, k - 1);
    }
}

pub proof fn lemma_visible_count_le(s: Seq<char>)
    ensures
        visible_count(s) <= s.len(),
    decreases s.len(),
{
    if s.len() > 0 {
        lemma_visible_count_le(s.drop_last());
    }
}

pub proof fn lemma_visible_le_chars(lines: Seq<Seq<char>>, from: int, to: int)
    ensures
        visible_in_lines(lines, from, to) <= chars_in_lines(lines, from, to),
    decreases to - from,
{
    if to > from {
        lemma_visible_le_chars(lines, from, to - 1);
        lemma_visible_count_le(lines[to - 1]);
    }
}

/// Characters in a range of lines are no more than those from the first line on.
pub proof fn lemma_chars_in_lines_le(lines: Seq<Seq<char>>, from: int, to: int, end: int)
    requires
        0 <= from <= to <= end,
    ensures
        chars_in_lines(lines, from, to) <= chars_in_lines(lines, 0, end),
    decreases end,
{
    if end > to {
        lemma_chars_in_lines_le(lines, from, to, end - 1);
    } else {
        lemma_chars_in_lines_from_le(lines, from, to);
    }
}

proof fn lemma_chars_in_lines_from_le(lines: Seq<Seq<char>>, from: int, to: int)
    requires
        0 <= from <= to,
    ensures
        chars_in_lines(lines, from, to) <= chars_in_lines(lines, 0, to),
    decreases from,
{
    if from > 0 {
        lemma_chars_in_lines_shift(lines, from - 1, to);
        lemma_chars_in_lines_from_le(lines, from - 1, to);
    }
}

/// Dropping the first line of a range removes its characters.
pub proof fn lemma_chars_in_lines_shift(lines: Seq<Seq<char>>, from: int, to: int)
    requires
        from < to,
    ensures
        chars_in_lines(lines, from, to) == lines[from].len() + chars_in_lines(lines, from + 1, to),
    decreases to - from,
{
    if to - 1 > from {
        lemma_chars_in_lines_shift(lines, from, to - 1);
    } else {
        assert(chars_in_lines(lines, from, from) == 0);
        assert(chars_in_lines(lines, from + 1, to) == 0);
    }
}

/// The lines of `text` as vectors of characters, with a bound on their total size.
pub fn split_lines(text: &str) -> (r: Vec<Vec<char>>)
    ensures
        char_lines_view(r@) == lines_of(text@),
        chars_in_lines(lines_of(text@), 0, lines_of(text@).len() as int) <= usize::MAX,
{
    let cs = chars_of(text);
    let n = cs.len();
    let mut lines: Vec<Vec<char>> = Vec::new();
    let mut cur: Vec<char> = Vec::new();
    let ghost mut start: int = 0;
    let mut i: usize = 0;
    assert(cs@.skip(0) =~= cs@);
    while i < n
        invariant
            n == cs.len(),
            cs@ == text@,
            0 <= start <= i <= n,
            lines_of(cs@) == char_lines_view(lines@) + lines_of(cs@.skip(start)),
            cur@ == cs@.subrange(start, i as int),
            forall|j: int| start <= j < i ==> #[trigger] cs@[j] != '\n',
            chars_in_lines(char_lines_view(lines@), 0, lines@.len() as int) + cur@.len() <= i,
        decreases n - i,
    {
        let c = cs[i];
        if c == '\n' {
            proof {
                let u = cs@.skip(start);
                let k = i - start;
                assert forall|j: int| 0 <= j < k implies #[trigger] u[j] != '\n' by {
                    assert(u[j] == cs@[start + j]);
                }
                lemma_newline_index_at(u, k);
                assert(u.take(k) =~= cur@);
                assert(u.skip(k + 1) =~= cs@.skip(i + 1));
            }
            let ghost old_lines = lines@;
            if cur.len() > 0 && cur[cur.len() - 1] == '\r' {
                cur.pop();
            }
            lines.push(cur);
            cur = Vec::new();
            proof {
                start = i + 1;
                assert(char_lines_view(lines@) =~= char_lines_view(old_lines).push(lines@.last()@));
                assert(chars_in_lines(char_lines_view(lines@), 0, lines@.len() as int - 1)
                    == chars_in_lines(char_lines_view(old_lines), 0, old_lines.len() as int)) by {
                    lemma_chars_in_lines_prefix(char_lines_view(lines@), char_lines_view(old_lines), old_lines.len() as int);
                }
            }
        } else {
            cur.push(c);
        }
        i = i + 1;
        proof {
            assert(cur@ =~= cs@.subrange(start, i as int));
        }
    }
    proof {
        let u = cs@.skip(start);
        assert(u =~= cur@);
        if u.len() > 0 {
            lemma_newline_index_at(u, u.len() as int);
        }
    }
    if cur.len() > 0 {
        let ghost old_lines = lines@;
        lines.push(cur);
        proof {
            assert(char_lines_view(lines@) =~= char_lines_view(old_lines).push(lines@.last()@));
            lemma_chars_in_lines_prefix(char_lines_view(lines@), char_lines_view(old_lines), old_lines.len() as int);
        }
    } else {
        assert(char_lines_view(lines@) + lines_of(cs@.skip(start)) =~= char_lines_view(lines@));
    }
    lines
}

/// Line sums agree on a common prefix.
pub proof fn lemma_chars_in_lines_prefix(a: Seq<Seq<char>>, b: Seq<Seq<char>>, to: int)
    requires
        0 <= to <= a.len(),
        to <= b.len(),
        forall|i: int| 0 <= i < to ==> a[i] == b[i],
    ensures
        chars_in_lines(a, 0, to) == chars_in_lines(b, 0, to),
    decreases to,
{
    if to > 0 {
        lemma_chars_in_lines_prefix(a, b, to - 1);
    }
}

/// `prefix` followed by `detail`, as a new string.
pub fn concat_text(prefix: &str, detail: &str) -> (r: String)
    ensures
        r@ == prefix@ + detail@,
{
    let mut r = String::new();
    push_str(&mut r, prefix);
    push_str(&mut r, detail);
    assert(r@ =~= prefix@ + detail@);
    r
}

/// The decimal digit for `d` (below ten).
pub open spec fn digit_char(d: nat) -> char {
    if d == 0 {
        '0'
    } else if d == 1 {
        '1'
    } else if d == 2 {
        '2'
    } else if d == 3 {
        '3'
    } else if d == 4 {
        '4'
    } else if d == 5 {
        '5'
    } else if d == 6 {
        '6'
    } else if d == 7 {
        '7'
    } else if d == 8 {
        '8'
    } else {
        '9'
    }
}

/// The decimal notation of `n`, without leading zeros.
pub open spec fn decimal(n: nat) -> Seq<char>
    decreases n,
{
    if n < 10 {
        seq![digit_char(n)]
    } else {
        decimal(n / 10).push(digit_char(n % 10))
    }
}

/// The decimal notation of `n`, with a leading `-` when it is negative.
pub open spec fn signed_decimal(n: int) -> Seq<char> {
    if n < 0 {
        seq!['-'] + decimal((-n) as nat)
    } else {
        decimal(n as nat)
    }
}

fn digit(d: u64) -> (c: char)
    requires
        d < 10,
    ensures
        c == digit_char(d as nat),
{
    if d == 0 {
        '0'
    } else if d == 1 {
        '1'
    } else if d == 2 {
        '2'
    } else if d == 3 {
        '3'
    } else if d == 4 {
        '4'
    } else if d == 5 {
        '5'
    } else if d == 6 {
        '6'
    } else if d == 7 {
        '7'
    } else if d == 8 {
        '8'
    } else {
        '9'
    }
}

/// Appends the decimal notation of `n` to `s`.
pub fn push_decimal(s: &mut String, n: u64)
    ensures
        final(s)@ == old(s)@ + decimal(n as nat),
    decreases n,
{
    if n >= 10 {
        push_decimal(s, n / 10);
    }
    push_char(s, digit(n % 10));
    assert(final(s)@ =~= old(s)@ + decimal(n as nat)) by {
        if n >= 10 {
            assert(decimal(n as nat) == decimal((n / 10) as nat).push(digit_char((n % 10) as nat)));
        }
    }
}

/// Appends the decimal notation of `n`, signed, to `s`.
pub fn push_signed_decimal(s: &mut String, n: i64)
    ensures
        final(s)@ == old(s)@ + signed_decimal(n as int),
{
    if n < 0 {
        push_char(s, '-');
        let magnitude: u64 = if n == i64::MIN {
            9223372036854775808u64
        } else {
            (-n) as u64
        };
        push_decimal(s, magnitude);
        assert(final(s)@ =~= old(s)@ + signed_decimal(n as int));
    } else {
        push_decimal(s, n as u64);
    }
}

} // verus!
