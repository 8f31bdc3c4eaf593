//! File names: their extensions, lower-casing, and the order in which directory listings
//! are sorted.
use vstd::prelude::*;

use crate::text::chars_of;

verus! {

/// Index of the last `'.'` in `s`.
pub open spec fn last_dot(s: Seq<char>) -> Option<int>
    decreases s.len(),
{
    if s.len() == 0 {
        None
    } else if s.last() == '.' {
        Some(s.len() - 1)
    } else {
        last_dot(s.drop_last())
    }
}

/// The extension of a file name, as `Path::extension` documents it: the part after the last
/// `'.'`, none when there is no `'.'`, when the only `'.'` starts the name, or for `".."`.
pub open spec fn file_extension(name: Seq<char>) -> Option<Seq<char>> {
    if name == seq!['.', '.'] {
        None
    } else {
        match last_dot(name) {
            None => None,
            Some(i) => if i == 0 {
                None
            } else {
                Some(name.skip(i + 1))
            },
        }
    }
}

/// What `str::to_lowercase` gives for `s`.
pub uninterp spec fn lowercase_of(s: Seq<char>) -> Seq<char>;

/// Lower-cases `s` with `str::to_lowercase`. Trusted: the result is the one `lowercase_of` names.
#[verifier::external_body]
pub(crate) fn lowercase(s: &str) -> (r: String)
    ensures
        r@ == lowercase_of(s@),
{
    s.to_lowercase()
}

proof fn lemma_last_dot_at(s: Seq<char>, i: int)
    requires
        -1 <= i < s.len(),
        i >= 0 ==> s[i] == '.',
        forall|j: int| i < j < s.len() ==> #[trigger] s[j] != '.',
    ensures
        last_dot(s) == if i >= 0 { Some(i) } else { None::<int> },
    decreases s.len(),
{
    if s.len() > 0 && i < s.len() - 1 {
        lemma_last_dot_at(s.drop_last(), i);
    }
}

/// The extension of the file name `name`.
pub fn extension_of(name: &str) -> (r: Option<String>)
    ensures
        match r {
            Some(e) => file_extension(name@) == Some(e@),
            None => file_extension(name@) is None,
        },
{
    let cs = chars_of(name);
    let n = cs.len();
    if n == 2 && cs[0] == '.' && cs[1] == '.' {
        assert(cs@ =~= seq!['.', '.']);
        return None;
    }
    let mut i = n;
    while i > 0 && cs[i - 1] != '.'
        invariant
            i <= n == cs.len(),
            forall|j: int| i <= j < n ==> #[trigger] cs@[j] != '.',
        decreases i,
    {
        i = i - 1;
    }
    proof {
        lemma_last_dot_at(cs@, i - 1);
    }
    if i <= 1 {
        None
    } else {
        let mut e = String::new();
        let mut k = i;
        while k < n
            invariant
                i <= k <= n == cs.len(),
                e@ == cs@.subrange(i as int, k as int),
            decreases n - k,
        {
            crate::text::push_char(&mut e, cs[k]);
            k = k + 1;
            assert(e@ =~= cs@.subrange(i as int, k as int));
        }
        assert(cs@.skip(i as int) =~= cs@.subrange(i as int, n as int));
        Some(e)
    }
}

/// The lower-cased extension of `name`, or `default` when it has none.
pub open spec fn lowered_extension_or(name: Seq<char>, default: Seq<char>) -> Seq<char> {
    match file_extension(name) {
        Some(e) => lowercase_of(e),
        None => default,
    }
}

/// The lower-cased extension of `name`, or "png" when it has none.
pub fn lowered_extension_or_png(name: &str) -> (r: String)
    ensures
        r@ == lowered_extension_or(name@, "png"@),
{
    match extension_of(name) {
        Some(e) => lowercase(e.as_str()),
        None => String::from_str("png"),
    }
}

/// Whether `a` and `b` hold the same characters.
pub fn same_text(a: &str, b: &str) -> (r: bool)
    ensures
        r == (a@ == b@),
{
    let x = chars_of(a);
    let y = chars_of(b);
    if x.len() != y.len() {
        return false;
    }
    let mut i: usize = 0;
    while i < x.len()
        invariant
            x@ == a@,
            y@ == b@,
            x.len() == y.len(),
            i <= x.len(),
            forall|j: int| 0 <= j < i ==> x@[j] == y@[j],
        decreases x.len() - i,
    {
        if x[i] != y[i] {
            assert(x@[i as int] != y@[i as int]);
            return false;
        }
        i = i + 1;
    }
    assert(x@ =~= y@);
    true
}

/// Whether `a` comes before `b` in the order of their characters' code points, a proper
/// prefix first. For file names this is the order in which paths are sorted.
pub open spec fn text_lt(a: Seq<char>, b: Seq<char>) -> bool
    decreases a.len(),
{
    if a.len() == 0 {
        b.len() > 0
    } else if b.len() == 0 {
        false
    } else if a[0] != b[0] {
        a[0] < b[0]
    } else {
        text_lt(a.drop_first(), b.drop_first())
    }
}

pub proof fn lemma_text_lt_irreflexive(a: Seq<char>)
    ensures
        !text_lt(a, a),
    decreases a.len(),
{
    if a.len() > 0 {
        lemma_text_lt_irreflexive(a.drop_first());
    }
}

pub proof fn lemma_text_lt_transitive(a: Seq<char>, b: Seq<char>, c: Seq<char>)
    requires
        text_lt(a, b),
        text_lt(b, c),
    ensures
        text_lt(a, c),
    decreases a.len(),
{
    if a.len() > 0 && b.len() > 0 && c.len() > 0 && a[0] == b[0] && b[0] == c[0] {
        lemma_text_lt_transitive(a.drop_first(), b.drop_first(), c.drop_first());
    }
}

pub proof fn lemma_text_lt_total(a: Seq<char>, b: Seq<char>)
    ensures
        a == b || text_lt(a, b) || text_lt(b, a),
    decreases a.len(),
{
    if a.len() > 0 && b.len() > 0 && a[0] == b[0] {
        lemma_text_lt_total(a.drop_first(), b.drop_first());
        if a.drop_first() == b.drop_first() {
            assert(a.len() == a.drop_first().len() + 1 && b.len() == b.drop_first().len() + 1);
            assert(a =~= b) by {
                assert forall|i: int| 0 <= i < a.len() implies a[i] == b[i] by {
                    if i > 0 {
                        assert(a[i] == a.drop_first()[i - 1]);
                        assert(b[i] == b.drop_first()[i - 1]);
                    }
                }
            }
        }
    } else if a.len() == 0 && b.len() == 0 {
        assert(a =~= b);
    }
}

pub proof fn lemma_text_lt_asymmetric(a: Seq<char>, b: Seq<char>)
    requires
        text_lt(a, b),
    ensures
        !text_lt(b, a),
{
    if text_lt(b, a) {
        lemma_text_lt_transitive(a, b, a);
        lemma_text_lt_irreflexive(a);
    }
}

/// Whether `a` comes before `b` (see `text_lt`).
pub fn text_less(a: &str, b: &str) -> (r: bool)
    ensures
        r == text_lt(a@, b@),
{
    let x = chars_of(a);
    let y = chars_of(b);
    let mut i: usize = 0;
    assert(x@.skip(0) =~= x@ && y@.skip(0) =~= y@);
    while i < x.len() && i < y.len() && x[i] == y[i]
        invariant
            i <= x.len(),
            i <= y.len(),
            text_lt(x@, y@) == text_lt(x@.skip(i as int), y@.skip(i as int)),
        decreases x.len() - i,
    {
        proof {
            let xs = x@.skip(i as int);
            let ys = y@.skip(i as int);
            assert(xs.drop_first() =~= x@.skip(i + 1));
            assert(ys.drop_first() =~= y@.skip(i + 1));
        }
        i = i + 1;
    }
    proof {
        let xs = x@.skip(i as int);
        let ys = y@.skip(i as int);
        assert(xs.len() == x.len() - i && ys.len() == y.len() - i);
        if i < x.len() && i < y.len() {
            assert(xs[0] == x@[i as int]);
            assert(ys[0] == y@[i as int]);
        }
    }
    if i == x.len() {
        i < y.len()
    } else if i == y.len() {
        false
    } else {
        x[i] < y[i]
    }
}

/// `v` is in non-decreasing `text_lt` order.
pub open spec fn names_sorted(v: Seq<Seq<char>>) -> bool {
    forall|i: int, j: int| 0 <= i < j < v.len() ==> !text_lt(#[trigger] v[j], #[trigger] v[i])
}

pub open spec fn names_view(v: Seq<String>) -> Seq<Seq<char>> {
    v.map_values(|s: String| s@)
}

/// Something listed by a name, such as a directory entry.
pub trait SortKey {
    spec fn sort_key(&self) -> Seq<char>;

    fn key_text(&self) -> (r: &str)
        ensures
            r@ == self.sort_key(),
    ;
}

impl SortKey for String {
    open spec fn sort_key(&self) -> Seq<char> {
        self@
    }

    fn key_text(&self) -> (r: &str) {
        self.as_str()
    }
}

pub open spec fn keys_view<T: SortKey>(v: Seq<T>) -> Seq<Seq<char>> {
    v.map_values(|x: T| x.sort_key())
}

/// Swapping two elements keeps the multiset of a sequence.
proof fn lemma_swap_multiset<A>(s: Seq<A>, i: int, k: int)
    requires
        0 <= i < s.len(),
        0 <= k < s.len(),
    ensures
        s.update(i, s[k]).update(k, s[i]).to_multiset() == s.to_multiset(),
{
    broadcast use vstd::multiset::group_multiset_axioms;

    let s1 = s.update(i, s[k]);
    vstd::seq_lib::to_multiset_update(s, i, s[k]);
    vstd::seq_lib::to_multiset_update(s1, k, s[i]);
    vstd::seq_lib::to_multiset_contains(s, s[i]);
    vstd::seq_lib::to_multiset_contains(s, s[k]);
    assert(s.contains(s[i]) && s.contains(s[k]));
    assert(s1.update(k, s[i]).to_multiset() =~= s.to_multiset());
}

/// Sorts `v` in place by the names of its elements, in `text_lt` order (insertion sort).
pub fn sort_by_key<T: SortKey>(v: &mut Vec<T>)
    ensures
        names_sorted(keys_view(final(v)@)),
        final(v)@.to_multiset() == old(v)@.to_multiset(),
{
    let n = v.len();
    let mut i: usize = 0;
    while i < n
        invariant
            i <= n == v.len(),
            forall|a: int, b: int| 0 <= a < b < i ==> !text_lt(#[trigger] v@[b].sort_key(), #[trigger] v@[a].sort_key()),
            v@.to_multiset() == old(v)@.to_multiset(),
        decreases n - i,
    {
        let mut j = i;
        while j > 0 && text_less(v[j].key_text(), v[j - 1].key_text())
            invariant
                0 <= j <= i < n == v.len(),
                v@.to_multiset() == old(v)@.to_multiset(),
                forall|a: int, b: int|
                    0 <= a < b <= i && a != j && b != j ==> !text_lt(#[trigger] v@[b].sort_key(), #[trigger] v@[a].sort_key()),
                forall|b: int| j < b <= i ==> text_lt(v@[j as int].sort_key(), #[trigger] v@[b].sort_key()),
            decreases j,
        {
            let ghost before = v@;
            let x = v.remove(j);
            v.insert(j - 1, x);
            proof {
                assert(v@ =~= before.update(j - 1, before[j as int]).update(j as int, before[j - 1]));
                lemma_swap_multiset(before, j - 1, j as int);
                assert forall|a: int, b: int|
                    0 <= a < b <= i && a != j - 1 && b != j - 1 implies !text_lt(
                    #[trigger] v@[b].sort_key(),
                    #[trigger] v@[a].sort_key(),
                ) by {
                    if b == j {
                        assert(v@[b] == before[j - 1]);
                        assert(!text_lt(before[j - 1].sort_key(), before[a].sort_key()));
                    } else if a == j {
                        assert(v@[a] == before[j - 1]);
                        assert(!text_lt(before[b].sort_key(), before[j - 1].sort_key()));
                    } else {
                        assert(v@[a] == before[a] && v@[b] == before[b]);
                    }
                }
                assert forall|b: int| j - 1 < b <= i implies text_lt(v@[j - 1].sort_key(), #[trigger] v@[b].sort_key()) by {
                    if b > j {
                        assert(v@[b] == before[b]);
                    }
                }
            }
            j = j - 1;
        }
        proof {
            assert forall|a: int, b: int| 0 <= a < b < i + 1 implies !text_lt(#[trigger] v@[b].sort_key(), #[trigger] v@[a].sort_key()) by {
                if b == j {
                    if text_lt(v@[b].sort_key(), v@[a].sort_key()) {
                        if a < j - 1 {
                            lemma_text_lt_total(v@[a].sort_key(), v@[j - 1].sort_key());
                            if text_lt(v@[a].sort_key(), v@[j - 1].sort_key()) {
                                lemma_text_lt_transitive(v@[b].sort_key(), v@[a].sort_key(), v@[j - 1].sort_key());
                            }
                        }
                    }
                } else if a == j {
                    lemma_text_lt_asymmetric(v@[a].sort_key(), v@[b].sort_key());
                }
            }
        }
        i = i + 1;
    }
    proof {
        assert forall|a: int, b: int| 0 <= a < b < keys_view(v@).len() implies !text_lt(#[trigger] keys_view(v@)[b], #[trigger] keys_view(v@)[a]) by {
            assert(keys_view(v@)[b] == v@[b].sort_key());
            assert(keys_view(v@)[a] == v@[a].sort_key());
        }
    }
}

/// Whether `s` starts with `prefix`.
pub open spec fn starts_with(s: Seq<char>, prefix: Seq<char>) -> bool {
    prefix.len() <= s.len() && s.take(prefix.len() as int) == prefix
}

/// Whether `s` starts with `prefix`.
pub fn has_prefix(s: &str, prefix: &str) -> (r: bool)
    ensures
        r == starts_with(s@, prefix@),
{
    let x = chars_of(s);
    let p = chars_of(prefix);
    if p.len() > x.len() {
        return false;
    }
    let mut i: usize = 0;
    while i < p.len()
        invariant
            x@ == s@,
            p@ == prefix@,
            p.len() <= x.len(),
            i <= p.len(),
            forall|k: int| 0 <= k < i ==> x@[k] == p@[k],
        decreases p.len() - i,
    {
        if x[i] != p[i] {
            assert(x@.take(p.len() as int)[i as int] != p@[i as int]);
            return false;
        }
        i = i + 1;
    }
    assert(x@.take(p.len() as int) =~= p@);
    true
}

} // verus!
