//! Chapter style directories: which files are header images, custom directory checks, and
//! the genre presets built on the bundled styles.
use vstd::prelude::*;

use crate::models::GenrePreset;
use crate::names::{
    extension_of, file_extension, has_prefix, keys_view, lowercase, lowercase_of, names_sorted,
    same_text, sort_by_key, starts_with, text_lt, SortKey,
};
use crate::text::{concat_text, push_str};

verus! {

/// Image extensions (lower-cased) of chapter header images.
pub open spec fn is_image_extension(e: Seq<char>) -> bool {
    e == "png"@ || e == "jpg"@ || e == "jpeg"@ || e == "webp"@
}

/// A chapter header image is a `header-<n>` image file; `header-line` files are ornaments.
pub open spec fn is_header_image_name(name: Seq<char>) -> bool {
    &&& starts_with(name, "header-"@)
    &&& !starts_with(name, "header-line"@)
    &&& file_extension(name) matches Some(e) && is_image_extension(lowercase_of(e))
}

/// Whether the file name `name` is that of a chapter header image.
pub fn is_header_image(name: &str) -> (r: bool)
    ensures
        r == is_header_image_name(name@),
{
    if !has_prefix(name, "header-") || has_prefix(name, "header-line") {
        return false;
    }
    match extension_of(name) {
        None => false,
        Some(e) => {
            let lower = lowercase(e.as_str());
            same_text(lower.as_str(), "png") || same_text(lower.as_str(), "jpg") || same_text(
                lower.as_str(),
                "jpeg",
            ) || same_text(lower.as_str(), "webp")
        },
    }
}

/// The header image names among `names`, in their order.
pub open spec fn header_names_of(names: Seq<String>) -> Seq<String>
    decreases names.len(),
{
    if names.len() == 0 {
        seq![]
    } else {
        let earlier = header_names_of(names.drop_last());
        if is_header_image_name(names.last()@) {
            earlier.push(names.last())
        } else {
            earlier
        }
    }
}

/// The chapter header images among the file names of a style directory, sorted by name.
pub fn list_header_images(names: &Vec<String>) -> (r: Vec<String>)
    ensures
        names_sorted(keys_view(r@)),
        r@.to_multiset() == header_names_of(names@).to_multiset(),
{
    let mut out: Vec<String> = Vec::new();
    let mut i: usize = 0;
    while i < names.len()
        invariant
            i <= names.len(),
            out@ == header_names_of(names@.take(i as int)),
        decreases names.len() - i,
    {
        proof {
            assert(names@.take(i + 1).drop_last() =~= names@.take(i as int));
        }
        if is_header_image(names[i].as_str()) {
            out.push(names[i].clone());
        }
        i = i + 1;
    }
    assert(names@.take(names.len() as int) =~= names@);
    sort_by_key(&mut out);
    out
}

/// The first header image by name, which previews the style; none when there is no header
/// image.
pub fn find_preview_image(names: &Vec<String>) -> (r: Option<String>)
    ensures
        r is None <==> header_names_of(names@).len() == 0,
        r matches Some(n) ==> header_names_of(names@).contains(n) && forall|k: int|
            0 <= k < header_names_of(names@).len() ==> !text_lt(#[trigger] header_names_of(names@)[k]@, n@),
{
    let list = list_header_images(names);
    broadcast use vstd::seq_lib::to_multiset_contains, vstd::seq_lib::to_multiset_len;

    let ghost h = header_names_of(names@);
    assert(list@.to_multiset().len() == h.to_multiset().len());
    if list.len() == 0 {
        return None;
    }
    let first = list[0].clone();
    proof {
        assert(list@.contains(list@[0]));
        assert(list@.to_multiset().count(list@[0]) > 0);
        assert(h.to_multiset().count(list@[0]) > 0);
        assert forall|k: int| 0 <= k < h.len() implies !text_lt(#[trigger] h[k]@, first@) by {
            assert(h.contains(h[k]));
            assert(h.to_multiset().count(h[k]) > 0);
            assert(list@.to_multiset().count(h[k]) > 0);
            assert(list@.contains(h[k]));
            let m = choose|m: int| 0 <= m < list@.len() && list@[m] == h[k];
            if m > 0 {
                assert(keys_view(list@)[m] == list@[m]@);
                assert(keys_view(list@)[0] == list@[0]@);
            }
            crate::names::lemma_text_lt_irreflexive(first@);
        }
    }
    Some(first)
}

/// What a directory chosen as a custom chapter style holds: whether it is a directory, the
/// path of its `cover.png` when that exists, and the names of its files.
pub struct StyleDirListing {
    pub is_dir: bool,
    pub cover_image_path: Option<String>,
    pub file_names: Vec<String>,
}

/// What checking a custom chapter style directory gives: the cover path, or why the
/// directory does not qualify.
pub open spec fn custom_dir_outcome(listing: StyleDirListing) -> Result<Seq<char>, Seq<char>> {
    if !listing.is_dir {
        Err("所选目录不存在"@)
    } else {
        match listing.cover_image_path {
            None => Err("目录下缺少封面图片 cover.png"@),
            Some(p) => if header_names_of(listing.file_names@).len() == 0 {
                Err("目录下缺少章节头图（如 header-01.png）"@)
            } else {
                Ok(p@)
            },
        }
    }
}

proof fn lemma_header_names_nonempty(names: Seq<String>)
    ensures
        header_names_of(names).len() > 0 <==> exists|i: int|
            0 <= i < names.len() && is_header_image_name(#[trigger] names[i]@),
    decreases names.len(),
{
    if names.len() > 0 {
        let rest = names.drop_last();
        lemma_header_names_nonempty(rest);
        if header_names_of(rest).len() > 0 {
            let i = choose|i: int| 0 <= i < rest.len() && is_header_image_name(#[trigger] rest[i]@);
            assert(names[i] == rest[i]);
        }
        if exists|i: int| 0 <= i < names.len() && is_header_image_name(#[trigger] names[i]@) {
            let i = choose|i: int| 0 <= i < names.len() && is_header_image_name(#[trigger] names[i]@);
            if i < names.len() - 1 {
                assert(rest[i] == names[i]);
            }
        }
    }
}

/// A custom style directory is accepted exactly when it exists, has a cover image and holds
/// at least one chapter header image among its files, wherever it is listed; then the
/// answer is the cover's path.
pub proof fn law_custom_dir_accepted_with_any_header_image(listing: StyleDirListing)
    ensures
        custom_dir_outcome(listing) is Ok <==> {
            &&& listing.is_dir
            &&& listing.cover_image_path is Some
            &&& exists|i: int|
                0 <= i < listing.file_names@.len() && is_header_image_name(#[trigger] listing.file_names@[i]@)
        },
        custom_dir_outcome(listing) is Ok ==> custom_dir_outcome(listing) == Ok::<Seq<char>, Seq<char>>(
            listing.cover_image_path->0@,
        ),
{
    lemma_header_names_nonempty(listing.file_names@);
}

/// Checks a directory chosen as a custom chapter style: it must exist, hold a `cover.png`
/// cover image and at least one `header-*` chapter header image. Returns the cover path.
pub fn validate_custom_style_dir(listing: &StyleDirListing) -> (r: Result<String, String>)
    ensures
        crate::epub::template::result_view(r) == custom_dir_outcome(*listing),
{
    if !listing.is_dir {
        return Err(String::from_str("所选目录不存在"));
    }
    let cover_path = match &listing.cover_image_path {
        None => {
            return Err(String::from_str("目录下缺少封面图片 cover.png"));
        },
        Some(p) => p.clone(),
    };
    let mut i: usize = 0;
    let mut found = false;
    while i < listing.file_names.len()
        invariant
            i <= listing.file_names.len(),
            found <==> header_names_of(listing.file_names@.take(i as int)).len() > 0,
        decreases listing.file_names.len() - i,
    {
        proof {
            assert(listing.file_names@.take(i + 1).drop_last() =~= listing.file_names@.take(i as int));
        }
        if is_header_image(listing.file_names[i].as_str()) {
            found = true;
        }
        i = i + 1;
    }
    assert(listing.file_names@.take(listing.file_names.len() as int) =~= listing.file_names@);
    if !found {
        return Err(String::from_str("目录下缺少章节头图（如 header-01.png）"));
    }
    Ok(cover_path)
}

/// A genre preset as listed in the presets file.
#[derive(Debug, Clone)]
pub struct GenrePresetEntry {
    pub id: String,
    pub prompt_keywords: String,
    pub chapter_style_id: String,
}

/// What the style directory of a preset offers: its preview image path ("" when it has
/// none) and its cover image path.
#[derive(Debug, Clone)]
pub struct StyleDirInfo {
    pub preview_image_path: String,
    pub cover_image_path: Option<String>,
}

/// The value of the first pair whose key is `key`.
pub open spec fn lookup(pairs: Seq<(Seq<char>, Seq<char>)>, key: Seq<char>) -> Option<Seq<char>>
    decreases pairs.len(),
{
    if pairs.len() == 0 {
        None
    } else if pairs[0].0 == key {
        Some(pairs[0].1)
    } else {
        lookup(pairs.drop_first(), key)
    }
}

pub open spec fn string_pairs_view(v: Seq<(String, String)>) -> Seq<(Seq<char>, Seq<char>)> {
    v.map_values(|p: (String, String)| (p.0@, p.1@))
}

/// The value of the first pair whose key is `key`.
pub fn find_value(pairs: &Vec<(String, String)>, key: &str) -> (r: Option<String>)
    ensures
        match r {
            Some(v) => lookup(string_pairs_view(pairs@), key@) == Some(v@),
            None => lookup(string_pairs_view(pairs@), key@) is None,
        },
{
    let ghost pv = string_pairs_view(pairs@);
    let mut i: usize = 0;
    assert(pv.skip(0) =~= pv);
    while i < pairs.len()
        invariant
            i <= pairs.len(),
            pv == string_pairs_view(pairs@),
            lookup(pv, key@) == lookup(pv.skip(i as int), key@),
        decreases pairs.len() - i,
    {
        proof {
            assert(pv.skip(i as int).drop_first() =~= pv.skip(i + 1));
            assert(pv.skip(i as int)[0] == (pairs@[i as int].0@, pairs@[i as int].1@));
        }
        if same_text(pairs[i].0.as_str(), key) {
            return Some(pairs[i].1.clone());
        }
        i = i + 1;
    }
    proof {
        assert(pv.skip(i as int) =~= Seq::<(Seq<char>, Seq<char>)>::empty());
    }
    None
}

/// The view of a built preset: id, label, keywords, style id, preview and cover paths.
pub open spec fn preset_view(p: GenrePreset) -> (Seq<char>, Seq<char>, Seq<char>, Seq<char>, Seq<char>, Option<Seq<char>>) {
    (
        p.id@,
        p.label@,
        p.prompt_keywords@,
        p.chapter_style_id@,
        p.preview_image_path@,
        match p.cover_image_path {
            Some(c) => Some(c@),
            None => None,
        },
    )
}

/// The presets built from `entries`, each labelled by the style name of its chapter style and
/// given the images of its style directory; or the first error: a style directory that
/// could not be resolved, or a style without a name.
pub open spec fn presets_outcome(
    entries: Seq<GenrePresetEntry>,
    style_names: Seq<(Seq<char>, Seq<char>)>,
    dirs: Seq<Result<StyleDirInfo, String>>,
) -> Result<Seq<(Seq<char>, Seq<char>, Seq<char>, Seq<char>, Seq<char>, Option<Seq<char>>)>, Seq<char>>
    decreases entries.len(),
{
    if entries.len() == 0 {
        Ok(seq![])
    } else {
        let i = entries.len() - 1;
        match presets_outcome(entries.drop_last(), style_names, dirs) {
            Err(e) => Err(e),
            Ok(done) => match dirs[i] {
                Err(e) => Err(e@),
                Ok(dir) => match lookup(style_names, entries[i].chapter_style_id@) {
                    None => Err("style-names.json 缺少 "@ + entries[i].chapter_style_id@ + " 的中文名称"@),
                    Some(label) => Ok(
                        done.push(
                            (
                                entries[i].id@,
                                label,
                                entries[i].prompt_keywords@,
                                entries[i].chapter_style_id@,
                                dir.preview_image_path@,
                                match dir.cover_image_path {
                                    Some(c) => Some(c@),
                                    None => None,
                                },
                            ),
                        ),
                    ),
                },
            },
        }
    }
}

proof fn lemma_presets_error_persists(
    entries: Seq<GenrePresetEntry>,
    names: Seq<(Seq<char>, Seq<char>)>,
    dirs: Seq<Result<StyleDirInfo, String>>,
    i: int,
)
    requires
        0 <= i <= entries.len(),
        presets_outcome(entries.take(i), names, dirs) is Err,
    ensures
        presets_outcome(entries, names, dirs) == presets_outcome(entries.take(i), names, dirs),
    decreases entries.len() - i,
{
    if i == entries.len() {
        assert(entries.take(i) =~= entries);
    } else {
        assert(entries.take(i + 1).drop_last() =~= entries.take(i));
        lemma_presets_error_persists(entries, names, dirs, i + 1);
    }
}

/// Builds the genre presets: each entry is labelled with the name of its chapter style
/// (from `style_names`) and given the preview and cover image of its style directory
/// (`dirs`, one per entry, or the error of resolving that directory).
pub fn genre_presets(
    entries: &Vec<GenrePresetEntry>,
    style_names: &Vec<(String, String)>,
    dirs: &Vec<Result<StyleDirInfo, String>>,
) -> (r: Result<Vec<GenrePreset>, String>)
    requires
        dirs.len() == entries.len(),
    ensures
        match r {
            Ok(v) => presets_outcome(entries@, string_pairs_view(style_names@), dirs@) == Ok::<
                Seq<(Seq<char>, Seq<char>, Seq<char>, Seq<char>, Seq<char>, Option<Seq<char>>)>,
                Seq<char>,
            >(v@.map_values(|p: GenrePreset| preset_view(p))),
            Err(e) => presets_outcome(entries@, string_pairs_view(style_names@), dirs@) == Err::<
                Seq<(Seq<char>, Seq<char>, Seq<char>, Seq<char>, Seq<char>, Option<Seq<char>>)>,
                Seq<char>,
            >(e@),
        },
{
    let ghost nv = string_pairs_view(style_names@);
    let mut out: Vec<GenrePreset> = Vec::new();
    let mut i: usize = 0;
    assert(entries@.take(0) =~= Seq::<GenrePresetEntry>::empty());
    assert(out@.map_values(|p: GenrePreset| preset_view(p)) =~= Seq::<
        (Seq<char>, Seq<char>, Seq<char>, Seq<char>, Seq<char>, Option<Seq<char>>),
    >::empty());
    while i < entries.len()
        invariant
            i <= entries.len() == dirs.len(),
            nv == string_pairs_view(style_names@),
            presets_outcome(entries@.take(i as int), nv, dirs@) == Ok::<
                Seq<(Seq<char>, Seq<char>, Seq<char>, Seq<char>, Seq<char>, Option<Seq<char>>)>,
                Seq<char>,
            >(out@.map_values(|p: GenrePreset| preset_view(p))),
        decreases entries.len() - i,
    {
        let entry = &entries[i];
        proof {
            assert(entries@.take(i + 1).drop_last() =~= entries@.take(i as int));
            assert(entries@.take(i + 1)[i as int] == entries@[i as int]);
        }
        let dir = match &dirs[i] {
            Err(e) => {
                proof {
                    lemma_presets_error_persists(entries@, nv, dirs@, i + 1);
                }
                return Err(e.clone());
            },
            Ok(d) => d,
        };
        let label = match find_value(style_names, entry.chapter_style_id.as_str()) {
            None => {
                let mut m = concat_text("style-names.json 缺少 ", entry.chapter_style_id.as_str());
                push_str(&mut m, " 的中文名称");
                proof {
                    lemma_presets_error_persists(entries@, nv, dirs@, i + 1);
                }
                return Err(m);
            },
            Some(l) => l,
        };
        let preset = GenrePreset {
            id: entry.id.clone(),
            label,
            prompt_keywords: entry.prompt_keywords.clone(),
            chapter_style_id: entry.chapter_style_id.clone(),
            preview_image_path: dir.preview_image_path.clone(),
            cover_image_path: match &dir.cover_image_path {
                Some(c) => Some(c.clone()),
                None => None,
            },
        };
        let ghost before = out@;
        out.push(preset);
        assert(out@.map_values(|p: GenrePreset| preset_view(p)) =~= before.map_values(|p: GenrePreset| preset_view(p)).push(
            preset_view(out@.last()),
        ));
        i = i + 1;
    }
    assert(entries@.take(entries.len() as int) =~= entries@);
    Ok(out)
}

} // verus!
