//! The project folders offered to automation clients: their names and the
//! order they are listed in.

use vstd::prelude::*;
use crate::text::{chars_of, lower_chars, lower_seq};
use crate::natural::lex_sign_exec;
use crate::natural_spec::{lex_sign, lemma_lex_sign_antisymmetric};
use crate::sorting::{
    sort_by, asymmetric, lemma_insert_by_at, lemma_sort_by_step, lemma_sort_by_multiset,
    lemma_sort_by_ordered,
};

verus! {

/// A project folder found under the projects root.
#[derive(Clone, Debug)]
pub struct ProjectFolder {
    pub name: String,
    /// The folder's path text.
    pub path: String,
    /// The path text of its project file.
    pub project_file: String,
    /// The project's settings, as JSON text.
    pub settings_json: String,
    /// When the project file last changed, in milliseconds since the Unix epoch.
    pub modified_unix_ms: Option<u128>,
}

/// The name a project folder is listed under: the name in its project file,
/// else the folder's name, else "Untitled".
pub open spec fn listing_name(file_name: Option<Seq<char>>, folder_name: Option<Seq<char>>) -> Seq<char> {
    match file_name {
        Some(n) => n,
        None => match folder_name {
            Some(f) => f,
            None => "Untitled"@,
        },
    }
}

/// The name a project folder is listed under.
pub fn project_listing_name(file_name: Option<&str>, folder_name: Option<&str>) -> (r: String)
    ensures
        r@ == listing_name(
            match file_name {
                Some(n) => Some(n@),
                None => None,
            },
            match folder_name {
                Some(f) => Some(f@),
                None => None,
            },
        ),
{
    match file_name {
        Some(n) => String::from_str(n),
        None => match folder_name {
            Some(f) => String::from_str(f),
            None => String::from_str("Untitled"),
        },
    }
}

/// The value a folder is ordered by: its name, ASCII-lower-cased.
pub open spec fn folder_key(f: ProjectFolder) -> Seq<char> {
    lower_seq(f.name@)
}

/// Whether folder `a` must be listed after folder `b`: by the code points of
/// the ASCII-lower-cased names.
pub open spec fn listed_after(a: ProjectFolder, b: ProjectFolder) -> bool {
    lex_sign(folder_key(a), folder_key(b)) > 0
}

/// The stable arrangement of the folders by ASCII-lower-cased name.
pub open spec fn project_listing(folders: Seq<ProjectFolder>) -> Seq<ProjectFolder> {
    sort_by(folders, |a: ProjectFolder, b: ProjectFolder| listed_after(a, b))
}

/// The folders in listing order: by ASCII-lower-cased name, folders whose
/// names tie keeping their order.
pub fn sort_project_folders(folders: Vec<ProjectFolder>) -> (r: Vec<ProjectFolder>)
    ensures
        r@ == project_listing(folders@),
{
    let ghost input = folders@;
    let ghost after = |a: ProjectFolder, b: ProjectFolder| listed_after(a, b);
    let mut rest = folders;
    let mut out: Vec<ProjectFolder> = Vec::new();
    let n = rest.len();
    let mut i: usize = 0;
    assert(input.take(0) =~= Seq::<ProjectFolder>::empty());
    while rest.len() > 0
        invariant
            i + rest@.len() == n,
            n == input.len(),
            rest@ == input.skip(i as int),
            after == (|a: ProjectFolder, b: ProjectFolder| listed_after(a, b)),
            out@ == sort_by(input.take(i as int), after),
        decreases rest.len(),
    {
        let x = rest.remove(0);
        proof {
            assert(input.skip(i + 1) =~= input.skip(i as int).drop_first());
        }
        let key = lower_chars(&chars_of(x.name.as_str()));
        let ghost before = out@;
        let mut j: usize = out.len();
        while j > 0
            invariant
                j <= out@.len(),
                before == out@,
                key@ == folder_key(x),
                after == (|a: ProjectFolder, b: ProjectFolder| listed_after(a, b)),
                forall|k: int| j <= k < out@.len() ==> after(#[trigger] before[k], x),
            ensures
                j <= out@.len(),
                j == 0 || !after(before[j - 1], x),
                forall|k: int| j <= k < out@.len() ==> after(#[trigger] before[k], x),
            decreases j,
        {
            let other = lower_chars(&chars_of(out[j - 1].name.as_str()));
            if lex_sign_exec(&other, &key) > 0 {
                j = j - 1;
            } else {
                break;
            }
        }
        proof {
            assert(input[i as int] == x);
            lemma_insert_by_at(before, x, after, j as int);
            lemma_sort_by_step(input, i as int, after);
        }
        out.insert(j, x);
        i = i + 1;
    }
    assert(input.take(n as int) =~= input);
    out
}

/// The listing holds every folder once per occurrence, and no folder is
/// listed before one whose lower-cased name comes earlier.
pub proof fn law_project_listing_is_ordered(folders: Seq<ProjectFolder>)
    ensures
        project_listing(folders).to_multiset()
            == folders.to_multiset(),
        forall|k: int|
            0 <= k < folders.len() - 1 ==> lex_sign(
                folder_key(#[trigger] project_listing(folders)[k]),
                folder_key(project_listing(folders)[k + 1]),
            ) <= 0,
{
    let after = |a: ProjectFolder, b: ProjectFolder| listed_after(a, b);
    assert(asymmetric(after)) by {
        assert forall|a: ProjectFolder, b: ProjectFolder| #[trigger] after(a, b) implies !after(b, a) by {
            lemma_lex_sign_antisymmetric(folder_key(a), folder_key(b));
        }
    }
    lemma_sort_by_multiset(folders, after);
    lemma_sort_by_ordered(folders, after);
    let r = sort_by(folders, after);
    assert forall|k: int| 0 <= k < folders.len() - 1 implies lex_sign(
        folder_key(#[trigger] r[k]),
        folder_key(r[k + 1]),
    ) <= 0 by {
        assert(!after(r[k], r[k + 1]));
    }
}

} // verus!
