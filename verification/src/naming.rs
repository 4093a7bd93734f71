//! Names for new assets and files: free names, copy names, safe file stems
//! and status messages.

use vstd::prelude::*;
use crate::model::Asset;
use crate::text::{
    chars_of, trim_chars, strip_char, string_of, decimal_string, decimal, trim, strip_both,
    strip_start, strip_leading_char, take_chars, lower_seq, eq_ignore_ascii_case,
};
use crate::counting::{lemma_injective_range_bound, lemma_decimal_injective, lemma_decimal_len};

verus! {

/// The names of the assets, in order.
pub open spec fn asset_names(assets: Seq<Asset>) -> Seq<Seq<char>> {
    assets.map_values(|a: Asset| a.name@)
}

/// The base a free asset name is built from: the trimmed name, or "Asset"
/// when nothing is left.
pub open spec fn name_base(base_name: Seq<char>) -> Seq<char> {
    let t = trim(base_name);
    if t.len() == 0 {
        "Asset"@
    } else {
        t
    }
}

/// `base` numbered `k`: "base k".
pub open spec fn numbered(base: Seq<char>, k: nat) -> Seq<char> {
    base + " "@ + decimal(k)
}

/// `r` is the free name for `base_name` among `names`: the base itself when
/// it is free, else the first free "base k" for k = 2, 3, ...
pub open spec fn is_free_name(names: Seq<Seq<char>>, base_name: Seq<char>, r: Seq<char>) -> bool {
    let base = name_base(base_name);
    if !names.contains(base) {
        r == base
    } else {
        exists|k: nat|
            k >= 2 && r == numbered(base, k) && !names.contains(r) && forall|j: nat|
                2 <= j < k ==> names.contains(#[trigger] numbered(base, j))
    }
}

proof fn lemma_numbered_injective(base: Seq<char>, j: nat, k: nat)
    requires
        numbered(base, j) == numbered(base, k),
    ensures
        j == k,
{
    let p = base + " "@;
    assert(numbered(base, j).skip(p.len() as int) =~= decimal(j));
    assert(numbered(base, k).skip(p.len() as int) =~= decimal(k));
    lemma_decimal_injective(j, k);
}

/// Whether some asset is named `name`.
fn name_taken(assets: &Vec<Asset>, name: &String) -> (r: bool)
    ensures
        r == asset_names(assets@).contains(name@),
{
    let mut i: usize = 0;
    while i < assets.len()
        invariant
            i <= assets.len(),
            forall|j: int| 0 <= j < i ==> assets@[j].name@ != name@,
        decreases assets.len() - i,
    {
        if assets[i].name == *name {
            assert(asset_names(assets@)[i as int] == name@);
            return true;
        }
        i = i + 1;
    }
    proof {
        if asset_names(assets@).contains(name@) {
            let j = choose|j: int| 0 <= j < asset_names(assets@).len() && asset_names(assets@)[j] == name@;
            assert(assets@[j].name@ == name@);
        }
    }
    false
}

/// A name for a new asset that no asset has: the trimmed `base_name` (or
/// "Asset" when it is blank) if free, else "base 2", "base 3", ... the first
/// that is free.
pub fn unique_asset_name(assets: &Vec<Asset>, base_name: &str) -> (r: String)
    requires
        assets@.len() + 2 <= u32::MAX,
    ensures
        is_free_name(asset_names(assets@), base_name@, r@),
        !asset_names(assets@).contains(r@),
{
    let ghost names = asset_names(assets@);
    let trimmed = trim_chars(&chars_of(base_name));
    let base: String = if trimmed.len() == 0 {
        String::from_str("Asset")
    } else {
        string_of(&trimmed)
    };
    assert(base@ == name_base(base_name@));
    if !name_taken(assets, &base) {
        return base;
    }
    let mut index: u32 = 2;
    loop
        invariant
            names == asset_names(assets@),
            base@ == name_base(base_name@),
            names.contains(base@),
            assets@.len() + 2 <= u32::MAX,
            2 <= index <= assets@.len() + 2,
            forall|j: nat| 2 <= j < index ==> names.contains(#[trigger] numbered(base@, j)),
        decreases assets@.len() + 2 - index,
    {
        let candidate = base.clone().concat(" ").concat(decimal_string(index as u64).as_str());
        assert(candidate@ == numbered(base@, index as nat));
        if !name_taken(assets, &candidate) {
            return candidate;
        }
        proof {
            let f = |i: int| numbered(base@, i as nat);
            assert forall|i: int, j: int|
                #![trigger f(i), f(j)]
                2 <= i < index + 1 && 2 <= j < index + 1 && f(i) == f(j) implies i == j by {
                lemma_numbered_injective(base@, i as nat, j as nat);
            }
            assert forall|j: int| 2 <= j < index + 1 implies names.contains(#[trigger] f(j)) by {
                if j < index {
                    assert(names.contains(numbered(base@, j as nat)));
                }
            }
            lemma_injective_range_bound(2, index + 1, f, names);
        }
        index = index + 1;
    }
}

/// The free name for a copy of an asset named `source_name`: based on
/// "<source_name> Copy".
pub fn unique_asset_copy_name(assets: &Vec<Asset>, source_name: &str) -> (r: String)
    requires
        assets@.len() + 2 <= u32::MAX,
    ensures
        is_free_name(asset_names(assets@), source_name@ + " Copy"@, r@),
        !asset_names(assets@).contains(r@),
{
    let base = String::from_str(source_name).concat(" Copy");
    unique_asset_name(assets, base.as_str())
}

/// The characters a file stem may hold: ASCII letters and digits, space,
/// '-' and '_'; anything else becomes '_'.
pub open spec fn stem_char(c: char) -> char {
    if ('a' <= c && c <= 'z') || ('A' <= c && c <= 'Z') || ('0' <= c && c <= '9') || c == ' '
        || c == '-' || c == '_' {
        c
    } else {
        '_'
    }
}

/// A file stem made safe: characters mapped by `stem_char`, then trimmed of
/// white space, of '_' and of white space again; "asset" when nothing is left.
pub open spec fn sanitized_stem(value: Seq<char>) -> Seq<char> {
    let mapped = value.map_values(|c: char| stem_char(c));
    let t = trim(strip_both(trim(mapped), |c: char| c == '_'));
    if t.len() == 0 {
        "asset"@
    } else {
        t
    }
}

/// A file stem made safe for any file system.
pub fn sanitize_file_stem(value: &str) -> (r: String)
    ensures
        r@ == sanitized_stem(value@),
{
    let chars = chars_of(value);
    let mut mapped: Vec<char> = Vec::new();
    let n = chars.len();
    for i in 0..n
        invariant
            n == chars.len(),
            chars@ == value@,
            mapped@ == value@.take(i as int).map_values(|c: char| stem_char(c)),
    {
        let ch = chars[i];
        if ('a' <= ch && ch <= 'z') || ('A' <= ch && ch <= 'Z') || ('0' <= ch && ch <= '9')
            || ch == ' ' || ch == '-' || ch == '_' {
            mapped.push(ch);
        } else {
            mapped.push('_');
        }
        assert(value@.take(i + 1).map_values(|c: char| stem_char(c)) =~= value@.take(
            i as int,
        ).map_values(|c: char| stem_char(c)).push(stem_char(value@[i as int])));
    }
    assert(value@.take(n as int) =~= value@);
    let t2 = trim_chars(&strip_char(&trim_chars(&mapped), '_'));
    if t2.len() == 0 {
        String::from_str("asset")
    } else {
        string_of(&t2)
    }
}

/// The file name for candidate `index`: "stem.ext" for 0, "stem_index.ext" after.
pub open spec fn file_candidate(stem: Seq<char>, ext: Seq<char>, index: nat) -> Seq<char> {
    if index == 0 {
        stem + "."@ + ext
    } else {
        stem + "_"@ + decimal(index) + "."@ + ext
    }
}

/// The extension without its leading dots.
pub open spec fn bare_extension(extension: Seq<char>) -> Seq<char> {
    strip_start(extension, |c: char| c == '.')
}

proof fn lemma_file_candidate_injective(stem: Seq<char>, ext: Seq<char>, j: nat, k: nat)
    requires
        file_candidate(stem, ext, j) == file_candidate(stem, ext, k),
    ensures
        j == k,
{
    lemma_decimal_len(j);
    lemma_decimal_len(k);
    reveal_strlit("_");
    reveal_strlit(".");
    if j != 0 && k != 0 {
        let p = stem + "_"@;
        let a = file_candidate(stem, ext, j);
        let b = file_candidate(stem, ext, k);
        assert("_"@.len() == 1);
        assert("."@.len() == 1);
        assert(a == stem + "_"@ + decimal(j) + "."@ + ext);
        assert(a.len() == stem.len() + 1 + decimal(j).len() + 1 + ext.len());
        assert(b.len() == stem.len() + 1 + decimal(k).len() + 1 + ext.len());
        assert(decimal(j).len() == decimal(k).len());
        assert(a.subrange(p.len() as int, (p.len() + decimal(j).len()) as int) =~= decimal(j));
        assert(b.subrange(p.len() as int, (p.len() + decimal(k).len()) as int) =~= decimal(k));
        lemma_decimal_injective(j, k);
    } else if j != 0 || k != 0 {
        assert("_"@.len() == 1);
        assert("."@.len() == 1);
        let a = file_candidate(stem, ext, j);
        let b = file_candidate(stem, ext, k);
        if j == 0 {
            assert(a.len() == stem.len() + 1 + ext.len());
            assert(b.len() == stem.len() + 1 + decimal(k).len() + 1 + ext.len());
        } else {
            assert(b.len() == stem.len() + 1 + ext.len());
            assert(a.len() == stem.len() + 1 + decimal(j).len() + 1 + ext.len());
        }
    }
}

/// Whether `name` is among `existing`.
fn file_name_taken(existing: &Vec<String>, name: &String) -> (r: bool)
    ensures
        r == existing@.map_values(|e: String| e@).contains(name@),
{
    let ghost names = existing@.map_values(|e: String| e@);
    let mut i: usize = 0;
    while i < existing.len()
        invariant
            i <= existing.len(),
            names == existing@.map_values(|e: String| e@),
            forall|j: int| 0 <= j < i ==> existing@[j]@ != name@,
        decreases existing.len() - i,
    {
        if existing[i] == *name {
            assert(names[i as int] == name@);
            return true;
        }
        i = i + 1;
    }
    proof {
        if names.contains(name@) {
            let j = choose|j: int| 0 <= j < names.len() && names[j] == name@;
            assert(existing@[j]@ == name@);
        }
    }
    false
}

/// The first free file name "stem.ext", "stem_1.ext", "stem_2.ext", ... among
/// the names already present in the target folder (leading dots of
/// `extension` are ignored).
pub fn unique_file_name(existing: &Vec<String>, stem: &str, extension: &str) -> (r: String)
    requires
        existing@.len() + 1 <= u32::MAX,
    ensures
        exists|k: nat|
            r@ == file_candidate(stem@, bare_extension(extension@), k) && !existing@.map_values(
                |e: String| e@,
            ).contains(r@) && forall|j: nat|
                j < k ==> existing@.map_values(|e: String| e@).contains(
                    #[trigger] file_candidate(stem@, bare_extension(extension@), j),
                ),
{
    let ghost names = existing@.map_values(|e: String| e@);
    let ext = string_of(&strip_leading_char(&chars_of(extension), '.'));
    let mut index: u32 = 0;
    loop
        invariant
            names == existing@.map_values(|e: String| e@),
            ext@ == bare_extension(extension@),
            existing@.len() + 1 <= u32::MAX,
            index <= existing@.len(),
            forall|j: nat| j < index ==> names.contains(#[trigger] file_candidate(stem@, ext@, j)),
        decreases existing@.len() - index,
    {
        let file_name = if index == 0 {
            String::from_str(stem).concat(".").concat(ext.as_str())
        } else {
            String::from_str(stem).concat("_").concat(decimal_string(index as u64).as_str()).concat(
                ".",
            ).concat(ext.as_str())
        };
        assert(file_name@ == file_candidate(stem@, ext@, index as nat));
        if !file_name_taken(existing, &file_name) {
            return file_name;
        }
        proof {
            let f = |i: int| file_candidate(stem@, ext@, i as nat);
            assert forall|i: int, j: int|
                #![trigger f(i), f(j)]
                0 <= i < index + 1 && 0 <= j < index + 1 && f(i) == f(j) implies i == j by {
                lemma_file_candidate_injective(stem@, ext@, i as nat, j as nat);
            }
            assert forall|j: int| 0 <= j < index + 1 implies names.contains(#[trigger] f(j)) by {
                if j < index {
                    assert(names.contains(file_candidate(stem@, ext@, j as nat)));
                }
            }
            lemma_injective_range_bound(0, index + 1, f, names);
        }
        index = index + 1;
    }
}

/// The status line after deleting assets: "Deleted asset" or "Deleted N
/// assets", followed by " and 1 timeline clip" or " and N timeline clips"
/// when clips went with them.
pub open spec fn deleted_status(assets: nat, clips: nat) -> Seq<char> {
    let asset_label = if assets == 1 {
        "Deleted asset"@
    } else {
        "Deleted "@ + decimal(assets) + " assets"@
    };
    if clips == 0 {
        asset_label
    } else if clips == 1 {
        asset_label + " and 1 timeline clip"@
    } else {
        asset_label + " and "@ + decimal(clips) + " timeline clips"@
    }
}

/// The status line after deleting assets and the clips that used them.
pub fn deleted_assets_status(assets: usize, clips: usize) -> (r: String)
    ensures
        r@ == deleted_status(assets as nat, clips as nat),
{
    let asset_label = if assets == 1 {
        String::from_str("Deleted asset")
    } else {
        String::from_str("Deleted ").concat(decimal_string(assets as u64).as_str()).concat(" assets")
    };
    if clips == 0 {
        asset_label
    } else if clips == 1 {
        asset_label.concat(" and 1 timeline clip")
    } else {
        asset_label.concat(" and ").concat(decimal_string(clips as u64).as_str()).concat(
            " timeline clips",
        )
    }
}

/// A path as shown in narrow places: at most 48 characters, long paths
/// keeping their last 45 characters after "...".
pub open spec fn path_label_text(text: Seq<char>) -> Seq<char> {
    if text.len() > 48 {
        "..."@ + text.skip(text.len() - 45)
    } else {
        text
    }
}

/// A path's display text shortened for narrow places.
pub fn path_label(path_text: &str) -> (r: String)
    ensures
        r@ == path_label_text(path_text@),
{
    let chars = chars_of(path_text);
    if chars.len() > 48 {
        let tail = crate::text::slice_chars(&chars, chars.len() - 45, chars.len());
        assert(tail@ =~= path_text@.skip(path_text@.len() - 45));
        String::from_str("...").concat(string_of(&tail).as_str())
    } else {
        String::from_str(path_text)
    }
}

/// A port label as drawn on the lab graph: trimmed, and cut to 15 characters
/// followed by "..." when longer than 18.
pub open spec fn short_port_label(label: Seq<char>) -> Seq<char> {
    let t = trim(label);
    if t.len() <= 18 {
        t
    } else {
        t.take(15) + "..."@
    }
}

/// A port label shortened for the lab graph.
pub fn asset_lab_short_port_label(label: &str) -> (r: String)
    ensures
        r@ == short_port_label(label@),
{
    let trimmed = trim_chars(&chars_of(label));
    if trimmed.len() <= 18 {
        string_of(&trimmed)
    } else {
        let prefix = take_chars(&trimmed, 15);
        string_of(&prefix).concat("...")
    }
}

/// Whether a state request names `name` (or "all"), ignoring ASCII case.
pub open spec fn requested(sections: Seq<Seq<char>>, name: Seq<char>) -> bool {
    exists|i: int|
        0 <= i < sections.len() && (lower_seq(#[trigger] sections[i]) == lower_seq(name)
            || lower_seq(sections[i]) == lower_seq("all"@))
}

/// Whether an automation state request includes the section `name`.
pub fn include_requested(sections: &Vec<String>, name: &str) -> (r: bool)
    ensures
        r == requested(sections@.map_values(|s: String| s@), name@),
{
    let ghost inc = sections@.map_values(|s: String| s@);
    let name_chars = chars_of(name);
    let all_chars = chars_of("all");
    let mut i: usize = 0;
    while i < sections.len()
        invariant
            i <= sections.len(),
            inc == sections@.map_values(|s: String| s@),
            name_chars@ == name@,
            all_chars@ == "all"@,
            forall|j: int|
                0 <= j < i ==> !(lower_seq(#[trigger] inc[j]) == lower_seq(name@) || lower_seq(
                    inc[j],
                ) == lower_seq("all"@)),
        decreases sections.len() - i,
    {
        let value = chars_of(sections[i].as_str());
        assert(inc[i as int] == value@);
        if eq_ignore_ascii_case(&value, &name_chars) || eq_ignore_ascii_case(&value, &all_chars) {
            return true;
        }
        i = i + 1;
    }
    false
}

} // verus!
