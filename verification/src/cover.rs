//! Cover choices: the background templates offered, the bundled fonts and the text colours.
use vstd::prelude::*;

use crate::genre::{find_value, is_image_extension, lookup, string_pairs_view};
use crate::models::CoverTemplate;
use crate::names::{
    extension_of, file_extension, keys_view, lowercase, lowercase_of, names_sorted, same_text,
    sort_by_key, SortKey,
};
use crate::text::concat_text;

verus! {

/// An entry of the cover template directory: its file name, its path as displayed, and
/// whether it is a regular file.
#[derive(Debug, Clone)]
pub struct CoverFile {
    pub file_name: String,
    pub path: String,
    pub is_file: bool,
}

impl SortKey for CoverFile {
    open spec fn sort_key(&self) -> Seq<char> {
        self.file_name@
    }

    fn key_text(&self) -> (r: &str) {
        self.file_name.as_str()
    }
}

/// A cover template is a regular file with an image extension.
pub open spec fn is_template_image(f: CoverFile) -> bool {
    f.is_file && (file_extension(f.file_name@) matches Some(e) && is_image_extension(lowercase_of(e)))
}

fn template_image(f: &CoverFile) -> (r: bool)
    ensures
        r == is_template_image(*f),
{
    if !f.is_file {
        return false;
    }
    match extension_of(f.file_name.as_str()) {
        None => false,
        Some(e) => {
            let lower = lowercase(e.as_str());
            same_text(lower.as_str(), "jpg") || same_text(lower.as_str(), "jpeg") || same_text(
                lower.as_str(),
                "png",
            ) || same_text(lower.as_str(), "webp")
        },
    }
}

/// The template images among `files`, in their order.
pub open spec fn template_files_of(files: Seq<CoverFile>) -> Seq<CoverFile>
    decreases files.len(),
{
    if files.len() == 0 {
        seq![]
    } else {
        let earlier = template_files_of(files.drop_last());
        if is_template_image(files.last()) {
            earlier.push(files.last())
        } else {
            earlier
        }
    }
}

/// The template of a cover file: its path, and its name from `names` or else its file name.
pub open spec fn template_view(f: CoverFile, names: Seq<(Seq<char>, Seq<char>)>) -> (Seq<char>, Seq<char>) {
    (
        f.path@,
        match lookup(names, f.file_name@) {
            Some(n) => n,
            None => f.file_name@,
        },
    )
}

pub open spec fn templates_view(v: Seq<CoverTemplate>) -> Seq<(Seq<char>, Seq<char>)> {
    v.map_values(|t: CoverTemplate| (t.path@, t.name@))
}

/// The cover templates of a directory: its image files sorted by name, each shown under the
/// name `names` gives its file, or else under its file name.
pub fn cover_templates(files: &Vec<CoverFile>, names: &Vec<(String, String)>) -> (r: Vec<CoverTemplate>)
    ensures
        exists|chosen: Seq<CoverFile>|
            {
                &&& names_sorted(keys_view(chosen))
                &&& chosen.to_multiset() == template_files_of(files@).to_multiset()
                &&& templates_view(r@) == chosen.map_values(
                    |f: CoverFile| template_view(f, string_pairs_view(names@)),
                )
            },
{
    let mut chosen: Vec<CoverFile> = Vec::new();
    let mut i: usize = 0;
    while i < files.len()
        invariant
            i <= files.len(),
            chosen@ == template_files_of(files@.take(i as int)),
        decreases files.len() - i,
    {
        proof {
            assert(files@.take(i + 1).drop_last() =~= files@.take(i as int));
        }
        if template_image(&files[i]) {
            let f = &files[i];
            chosen.push(CoverFile { file_name: f.file_name.clone(), path: f.path.clone(), is_file: f.is_file });
        }
        i = i + 1;
    }
    assert(files@.take(files.len() as int) =~= files@);
    sort_by_key(&mut chosen);
    let ghost nv = string_pairs_view(names@);
    let mut out: Vec<CoverTemplate> = Vec::new();
    let mut k: usize = 0;
    while k < chosen.len()
        invariant
            k <= chosen.len(),
            nv == string_pairs_view(names@),
            templates_view(out@) == chosen@.take(k as int).map_values(|f: CoverFile| template_view(f, nv)),
        decreases chosen.len() - k,
    {
        let f = &chosen[k];
        let name = match find_value(names, f.file_name.as_str()) {
            Some(n) => n,
            None => f.file_name.clone(),
        };
        let ghost before = out@;
        out.push(CoverTemplate { path: f.path.clone(), name });
        assert(templates_view(out@) =~= templates_view(before).push((out@.last().path@, out@.last().name@)));
        assert(chosen@.take(k + 1).map_values(|f: CoverFile| template_view(f, nv)) =~= chosen@.take(
            k as int,
        ).map_values(|f: CoverFile| template_view(f, nv)).push(template_view(chosen@[k as int], nv)));
        k = k + 1;
    }
    assert(chosen@.take(chosen.len() as int) =~= chosen@);
    out
}

/// `idx` when it splits a title of `len` characters into two non-empty parts.
pub open spec fn split_if_inside(len: int, idx: int) -> Seq<usize> {
    if 1 <= idx < len {
        seq![idx as usize]
    } else {
        seq![]
    }
}

/// The split points tried for a title of `len` characters over the first `k` distances from
/// the middle: at distance `d`, the point `d` before the middle (or the start) and the point
/// `d` after it, each kept when it leaves both parts non-empty.
pub open spec fn split_points(len: int, k: int) -> Seq<usize>
    decreases k,
{
    if k <= 0 {
        seq![]
    } else {
        let mid = len / 2;
        let d = k - 1;
        let before = if mid >= d { mid - d } else { 0 };
        split_points(len, k - 1) + split_if_inside(len, before) + split_if_inside(len, mid + d)
    }
}

/// Every split point leaves both parts of the title non-empty.
pub proof fn law_split_points_leave_both_parts(len: int, k: int)
    requires
        len <= usize::MAX,
    ensures
        forall|i: int| 0 <= i < split_points(len, k).len() ==> 1 <= #[trigger] split_points(len, k)[i] < len,
    decreases k,
{
    if k > 0 {
        law_split_points_leave_both_parts(len, k - 1);
        let mid = len / 2;
        let d = k - 1;
        let before = if mid >= d { mid - d } else { 0 };
        let a = split_points(len, k - 1);
        let b = split_if_inside(len, before);
        let c = split_if_inside(len, mid + d);
        assert(split_points(len, k) == a + b + c);
        assert forall|i: int| 0 <= i < split_points(len, k).len() implies 1 <= #[trigger] split_points(len, k)[i] < len by {
            if i < a.len() {
                assert(split_points(len, k)[i] == a[i]);
            } else if i < a.len() + b.len() {
                assert(split_points(len, k)[i] == b[i - a.len()]);
                assert(b[0] as int == before);
            } else {
                assert(split_points(len, k)[i] == c[i - a.len() - b.len()]);
                assert(c[0] as int == mid + d);
            }
        }
    }
}

/// How far `x` is from `mid`.
pub open spec fn distance(x: int, mid: int) -> int {
    if x >= mid {
        x - mid
    } else {
        mid - x
    }
}

proof fn lemma_split_points_by_distance(len: int, k: int)
    requires
        len <= usize::MAX,
    ensures
        forall|i: int, j: int|
            0 <= i < j < split_points(len, k).len() ==> distance(#[trigger] split_points(len, k)[i] as int, len / 2)
                <= distance(#[trigger] split_points(len, k)[j] as int, len / 2),
        forall|i: int| 0 <= i < split_points(len, k).len() ==> distance(#[trigger] split_points(len, k)[i] as int, len / 2) < k,
    decreases k,
{
    if k > 0 {
        lemma_split_points_by_distance(len, k - 1);
        let mid = len / 2;
        let d = k - 1;
        let before = if mid >= d { mid - d } else { 0 };
        let a = split_points(len, k - 1);
        let b = split_if_inside(len, before);
        let c = split_if_inside(len, mid + d);
        let s = split_points(len, k);
        assert(s == a + b + c);
        assert forall|i: int| a.len() <= i < s.len() implies distance(#[trigger] s[i] as int, mid) == d by {
            if i < a.len() + b.len() {
                assert(s[i] == b[i - a.len()]);
                assert(b[0] as int == before);
            } else {
                assert(s[i] == c[i - a.len() - b.len()]);
                assert(c[0] as int == mid + d);
            }
        }
        assert forall|i: int| 0 <= i < a.len() implies distance(#[trigger] s[i] as int, mid) < d by {
            assert(s[i] == a[i]);
        }
    }
}

proof fn lemma_split_points_prefix(len: int, k1: int, k2: int)
    requires
        0 <= k1 <= k2,
    ensures
        split_points(len, k1).len() <= split_points(len, k2).len(),
        forall|i: int| 0 <= i < split_points(len, k1).len() ==> #[trigger] split_points(len, k2)[i] == split_points(len, k1)[i],
    decreases k2,
{
    if k2 > k1 {
        lemma_split_points_prefix(len, k1, k2 - 1);
        let a = split_points(len, k2 - 1);
        let mid = len / 2;
        let d = k2 - 1;
        let before = if mid >= d { mid - d } else { 0 };
        assert(split_points(len, k2) == a + split_if_inside(len, before) + split_if_inside(len, mid + d));
        assert forall|i: int| 0 <= i < split_points(len, k1).len() implies #[trigger] split_points(len, k2)[i] == split_points(len, k1)[i] by {
            assert(split_points(len, k2)[i] == a[i]);
        }
    }
}

/// The split points of a title of `len` characters come nearest the middle first: each is at
/// least as close to `len / 2` as the next, and the first is the middle itself whenever that
/// leaves both parts non-empty. Every point that leaves both parts non-empty is tried.
pub proof fn law_split_points_nearest_middle_first(len: int)
    requires
        0 <= len <= usize::MAX / 2,
    ensures
        forall|i: int, j: int|
            0 <= i < j < split_points(len, len).len() ==> distance(#[trigger] split_points(len, len)[i] as int, len / 2)
                <= distance(#[trigger] split_points(len, len)[j] as int, len / 2),
        1 <= len / 2 < len ==> split_points(len, len).len() > 0 && split_points(len, len)[0] == len / 2,
        forall|p: usize| 1 <= p < len ==> #[trigger] split_points(len, len).contains(p),
{
    lemma_split_points_by_distance(len, len);
    let mid = len / 2;
    if 1 <= mid < len {
        lemma_split_points_prefix(len, 1, len);
        assert(split_points(len, 0) =~= Seq::<usize>::empty());
        assert(split_points(len, 1) =~= seq![mid as usize, mid as usize]);
    }
    assert forall|p: usize| 1 <= p < len implies #[trigger] split_points(len, len).contains(p) by {
        let d = distance(p as int, mid);
        assert(0 <= d < len);
        lemma_split_points_prefix(len, d + 1, len);
        let a = split_points(len, d);
        let before = if mid >= d { mid - d } else { 0 };
        let s = split_points(len, d + 1);
        assert(s == a + split_if_inside(len, before) + split_if_inside(len, mid + d));
        if p < mid {
            assert(before == p);
            assert(s[a.len() as int] == p);
            assert(split_points(len, len)[a.len() as int] == p);
        } else {
            assert(p == mid + d);
            let at: int = (a.len() + split_if_inside(len, before).len()) as int;
            assert(s[at] == p);
            assert(split_points(len, len)[at] == p);
        }
    }
}

/// The points at which a title too wide for one line is tried to be split, nearest the middle
/// first: the first at which both parts fit is taken.
pub fn title_split_order(len: usize) -> (r: Vec<usize>)
    requires
        len <= usize::MAX / 2,
    ensures
        r@ == split_points(len as int, len as int),
{
    let mid = len / 2;
    let mut r: Vec<usize> = Vec::new();
    let mut offset: usize = 0;
    while offset < len
        invariant
            offset <= len <= usize::MAX / 2,
            mid == len / 2,
            r@ == split_points(len as int, offset as int),
        decreases len - offset,
    {
        let ghost before = r@;
        let below = if mid >= offset { mid - offset } else { 0 };
        if 1 <= below && below < len {
            r.push(below);
        }
        let ghost middle = r@;
        let above = mid + offset;
        if 1 <= above && above < len {
            r.push(above);
        }
        proof {
            assert(middle =~= before + split_if_inside(len as int, below as int));
            assert(r@ =~= middle + split_if_inside(len as int, above as int));
        }
        offset = offset + 1;
    }
    r
}

/// The font file of each font family offered for covers.
pub open spec fn font_file_of(family: Seq<char>) -> Option<Seq<char>> {
    if family == "Huiwen GangHei"@ {
        Some("HuiwenGangHei.ttf"@)
    } else if family == "Huiwen FangSong"@ {
        Some("HuiwenFangSong.ttf"@)
    } else if family == "QingLiu ShuShi Ti"@ {
        Some("QingLiuShuShiTi.ttf"@)
    } else if family == "HengShan MaoBi CaoShu"@ {
        Some("HengShanMaoBiCaoShu-2.ttf"@)
    } else if family == "SanJi PoMo Ti"@ {
        Some("SanJiPoMoTi-2.ttf"@)
    } else if family == "YanShi ChunFeng Kai"@ {
        Some("YanShiChunFengKai-2.ttf"@)
    } else if family == "Slidefu Regular"@ {
        Some("Slidefu-Regular-2.ttf"@)
    } else {
        None
    }
}

/// The font file of a font family, or an error for a family that is not offered.
pub fn font_file_name(family: &str) -> (r: Result<&'static str, String>)
    ensures
        match r {
            Ok(f) => font_file_of(family@) == Some(f@),
            Err(m) => font_file_of(family@) is None && m@ == "未知字体: "@ + family@,
        },
{
    if same_text(family, "Huiwen GangHei") {
        Ok("HuiwenGangHei.ttf")
    } else if same_text(family, "Huiwen FangSong") {
        Ok("HuiwenFangSong.ttf")
    } else if same_text(family, "QingLiu ShuShi Ti") {
        Ok("QingLiuShuShiTi.ttf")
    } else if same_text(family, "HengShan MaoBi CaoShu") {
        Ok("HengShanMaoBiCaoShu-2.ttf")
    } else if same_text(family, "SanJi PoMo Ti") {
        Ok("SanJiPoMoTi-2.ttf")
    } else if same_text(family, "YanShi ChunFeng Kai") {
        Ok("YanShiChunFengKai-2.ttf")
    } else if same_text(family, "Slidefu Regular") {
        Ok("Slidefu-Regular-2.ttf")
    } else {
        Err(concat_text("未知字体: ", family))
    }
}

/// The resource path of a font file.
pub fn font_resource_path(file_name: &str) -> (r: String)
    ensures
        r@ == "resources/fonts/"@ + file_name@,
{
    concat_text("resources/fonts/", file_name)
}

/// The RGBA colour of a colour name: black, white, red, blue and yellow are known, and any
/// other name is white.
pub open spec fn color_of(name: Seq<char>) -> Seq<u8> {
    if name == "#000000"@ {
        seq![0u8, 0u8, 0u8, 255u8]
    } else if name == "#ffffff"@ {
        seq![255u8, 255u8, 255u8, 255u8]
    } else if name == "#ff0000"@ {
        seq![255u8, 0u8, 0u8, 255u8]
    } else if name == "#0000ff"@ {
        seq![0u8, 0u8, 255u8, 255u8]
    } else if name == "#ffff00"@ {
        seq![255u8, 255u8, 0u8, 255u8]
    } else {
        seq![255u8, 255u8, 255u8, 255u8]
    }
}

/// The RGBA colour of a colour name (white for any name not known).
pub fn parse_color(name: &str) -> (r: [u8; 4])
    ensures
        r@ == color_of(name@),
{
    proof {
        reveal_strlit("#000000");
        reveal_strlit("#ffffff");
        reveal_strlit("#ff0000");
        reveal_strlit("#0000ff");
        reveal_strlit("#ffff00");
    }
    let r = if same_text(name, "#000000") {
        [0u8, 0u8, 0u8, 255u8]
    } else if same_text(name, "#ffffff") {
        [255u8, 255u8, 255u8, 255u8]
    } else if same_text(name, "#ff0000") {
        [255u8, 0u8, 0u8, 255u8]
    } else if same_text(name, "#0000ff") {
        [0u8, 0u8, 255u8, 255u8]
    } else if same_text(name, "#ffff00") {
        [255u8, 255u8, 0u8, 255u8]
    } else {
        [255u8, 255u8, 255u8, 255u8]
    };
    assert(r@ =~= color_of(name@));
    r
}

/// The colour of cover text: the named colour, white when none is given.
pub fn text_color(name: Option<&str>) -> (r: [u8; 4])
    ensures
        r@ == match name {
            Some(n) => color_of(n@),
            None => seq![255u8, 255u8, 255u8, 255u8],
        },
{
    match name {
        Some(n) => parse_color(n),
        None => {
            let r = [255u8, 255u8, 255u8, 255u8];
            assert(r@ =~= seq![255u8, 255u8, 255u8, 255u8]);
            r
        },
    }
}

} // verus!
