//! Which files can be imported as media assets.

use vstd::prelude::*;
use crate::text::{chars_of, lower_seq, seq_contains, eq_ignore_ascii_case};

verus! {

/// The media file extensions the editor imports (lower case).
pub open spec fn import_extensions() -> Seq<Seq<char>> {
    seq![
        "mp4"@, "mov"@, "avi"@, "mkv"@, "webm"@, "mp3"@, "wav"@, "ogg"@, "flac"@, "png"@, "jpg"@,
        "jpeg"@, "gif"@, "webp"@,
    ]
}

/// Whether an extension, ignoring ASCII case, is one the editor imports.
pub open spec fn supported_extension(ext: Seq<char>) -> bool {
    exists|i: int| 0 <= i < import_extensions().len() && lower_seq(ext) == lower_seq(#[trigger] import_extensions()[i])
}

/// Whether a path is a bare file name on every platform: not empty, not
/// "." or "..", and without a slash, backslash or colon, so that no platform reads a
/// directory, a root or a drive prefix in it and the file name is the whole
/// path.
pub open spec fn bare_file_name(s: Seq<char>) -> bool {
    &&& s.len() > 0
    &&& s != "."@
    &&& s != ".."@
    &&& forall|k: int| 0 <= k < s.len() ==> #[trigger] s[k] != '/' && s[k] != '\u{5c}' && s[k] != ':'
}

/// The position of the last '.' of `s`.
pub open spec fn last_dot(s: Seq<char>) -> Option<int>
    decreases s.len(),
{
    if s.len() == 0 {
        None
    } else if s.last() == '.' {
        Some(s.len() - 1)
    } else {
        last_dot(s.drop_last())
    }
}

/// The extension of a file name as `Path::extension` documents it: the part
/// after the last '.', unless there is no '.' or the only one opens the name.
pub open spec fn file_name_extension(name: Seq<char>) -> Option<Seq<char>> {
    match last_dot(name) {
        Some(k) => if k > 0 {
            Some(name.skip(k + 1))
        } else {
            None
        },
        None => None,
    }
}

/// A character after which no platform continues a file name: a slash or
/// backslash (separators), or a colon (which closes a drive prefix).
pub open spec fn is_name_break(c: char) -> bool {
    c == '/' || c == '\u{5c}' || c == ':'
}

/// The position of the last name break of `s`.
pub open spec fn last_name_break(s: Seq<char>) -> Option<int>
    decreases s.len(),
{
    if s.len() == 0 {
        None
    } else if is_name_break(s.last()) {
        Some(s.len() - 1)
    } else {
        last_name_break(s.drop_last())
    }
}

/// The text after the last name break (all of `s` when there is none).
pub open spec fn path_tail(s: Seq<char>) -> Seq<char> {
    match last_name_break(s) {
        Some(k) => s.skip(k + 1),
        None => s,
    }
}

/// Whether `s` opens with two separators, as UNC, device and verbatim
/// prefixes do.
pub open spec fn opens_with_double_separator(s: Seq<char>) -> bool {
    s.len() >= 2 && (s[0] == '/' || s[0] == '\u{5c}') && (s[1] == '/' || s[1] == '\u{5c}')
}

/// Whether every platform reads the same extension in `s`: the path does not
/// open with two separators, and the text after its last name break
/// is not empty, does not start with '.', and holds a '.'. The file name
/// then ends in that text, so its extension is the text after the last '.'.
pub open spec fn plain_dotted_tail(s: Seq<char>) -> bool {
    let t = path_tail(s);
    &&& !opens_with_double_separator(s)
    &&& t.len() > 0
    &&& t[0] != '.'
    &&& last_dot(t) is Some
}

/// The text after the last '.' of `s` (empty when there is none).
pub open spec fn after_last_dot(s: Seq<char>) -> Seq<char> {
    match last_dot(s) {
        Some(k) => s.skip(k + 1),
        None => seq![],
    }
}

/// `Path::extension` of a path given as text: the part of the file name
/// after its last dot, as text. Which part of the path is the file name
/// depends on the platform's separators and prefixes. The contract states
/// the extension exactly where every platform agrees: for a bare file name
/// (the whole path is the file name), and for a path whose last name after
/// every name break is a dotted name that does not open with a dot (the
/// file name ends in it, so its extension is the text after the last dot),
/// unless the path opens with two separators (a UNC or device prefix on
/// Windows). For other paths it states only that the extension is a piece
/// of the path.
#[verifier::external_body]
fn path_extension(path: &str) -> (r: Option<String>)
    ensures
        r matches Some(e) ==> seq_contains(path@, e@),
        bare_file_name(path@) ==> match file_name_extension(path@) {
            Some(e) => r matches Some(x) && x@ == e,
            None => r is None,
        },
        plain_dotted_tail(path@) ==> r is Some && r->0@ == after_last_dot(path@),
{
    std::path::Path::new(path).extension().and_then(|ext| ext.to_str()).map(|ext| ext.to_string())
}

/// Whether an extension, ignoring ASCII case, is one the editor imports.
pub fn is_supported_asset_extension(ext: &str) -> (r: bool)
    ensures
        r == supported_extension(ext@),
{
    let e = chars_of(ext);
    let list = vec![
        "mp4", "mov", "avi", "mkv", "webm", "mp3", "wav", "ogg", "flac", "png", "jpg", "jpeg", "gif",
        "webp",
    ];
    assert(list@.map_values(|s: &str| s@) =~= import_extensions());
    let mut i: usize = 0;
    while i < list.len()
        invariant
            i <= list.len(),
            e@ == ext@,
            list@.map_values(|s: &str| s@) == import_extensions(),
            forall|j: int| 0 <= j < i ==> lower_seq(ext@) != lower_seq(#[trigger] import_extensions()[j]),
        decreases list.len() - i,
    {
        let candidate = chars_of(list[i]);
        assert(import_extensions()[i as int] == list@[i as int]@);
        if eq_ignore_ascii_case(&e, &candidate) {
            return true;
        }
        i = i + 1;
    }
    false
}

/// Whether a dropped or picked file can be imported: it has an extension,
/// and the extension is a supported media type. The answer is exact for a
/// bare file name and for a path whose last name, after its last slash,
/// backslash or colon, does not start with a dot and holds one (unless the path opens
/// with two separators); for other paths the platform decides which part is
/// the file name.
pub fn is_supported_asset_import_path(path: &str) -> (r: bool)
    ensures
        r ==> exists|e: Seq<char>| seq_contains(path@, e) && supported_extension(e),
        bare_file_name(path@) ==> r == match file_name_extension(path@) {
            Some(e) => supported_extension(e),
            None => false,
        },
        plain_dotted_tail(path@) ==> r == supported_extension(after_last_dot(path@)),
{
    match path_extension(path) {
        Some(ext) => is_supported_asset_extension(ext.as_str()),
        None => false,
    }
}

/// A path separator on some platform: a slash or a backslash.
pub open spec fn is_separator(c: char) -> bool {
    c == '/' || c == '\u{5c}'
}

/// Whether a ".." component starts at position `i` of `s`: two dots, with a
/// separator or the path's end on each side.
pub open spec fn parent_component_at(s: Seq<char>, i: int) -> bool {
    &&& 0 <= i
    &&& i + 2 <= s.len()
    &&& s[i] == '.'
    &&& s[i + 1] == '.'
    &&& (i == 0 || is_separator(s[i - 1]))
    &&& (i + 2 == s.len() || is_separator(s[i + 2]))
}

/// Whether a "/"-delimited ".." component starts at position `i` of `s`.
pub open spec fn slash_parent_at(s: Seq<char>, i: int) -> bool {
    &&& 0 <= i
    &&& i + 2 <= s.len()
    &&& s[i] == '.'
    &&& s[i + 1] == '.'
    &&& (i == 0 || s[i - 1] == '/')
    &&& (i + 2 == s.len() || s[i + 2] == '/')
}

/// Whether every platform reads a root, a prefix or a step up in `s`: it
/// starts with a slash, or a ".." stands between slashes.
pub open spec fn leaves_folder_everywhere(s: Seq<char>) -> bool {
    (s.len() > 0 && s[0] == '/') || exists|i: int| #[trigger] slash_parent_at(s, i)
}

/// Whether every platform reads `s` as a plain relative path: it does not
/// start with a separator, its second character is not a colon (no drive
/// prefix), and no ".." stands between separators of either kind.
pub open spec fn plain_relative(s: Seq<char>) -> bool {
    &&& !(s.len() > 0 && is_separator(s[0]))
    &&& !(s.len() > 1 && s[1] == ':')
    &&& forall|i: int| !#[trigger] parent_component_at(s, i)
}

/// The kinds of component a path is made of, as `std::path::Component`
/// tells them apart.
#[derive(Clone, Copy, Debug, PartialEq, Eq, Structural)]
pub enum PathPart {
    Prefix,
    RootDir,
    CurDir,
    ParentDir,
    Normal,
}

/// Whether a component keeps a joined path inside the folder it is joined
/// to: the current folder or a plain name.
pub open spec fn stays_inside(p: PathPart) -> bool {
    p is CurDir || p is Normal
}

/// `Path::is_absolute` of a path given as text. On Unix a path is absolute
/// when it starts with a slash; on Windows when it has a prefix and a root.
/// The contract states the case that holds on every platform: a plain
/// relative path is not absolute.
#[verifier::external_body]
fn path_is_absolute(path: &str) -> (r: bool)
    ensures
        plain_relative(path@) ==> !r,
{
    std::path::Path::new(path).is_absolute()
}

/// `Path::components` of a path given as text, each component by its kind.
/// Which separators and prefixes are read depends on the platform; the
/// contract states what holds on every platform: a path that starts with a
/// slash, or has a ".." between slashes, has a root, prefix or parent
/// component, and a plain relative path has only current-folder and plain
/// components.
#[verifier::external_body]
fn path_parts(path: &str) -> (r: Vec<PathPart>)
    ensures
        leaves_folder_everywhere(path@) ==> exists|k: int| 0 <= k < r@.len() && !stays_inside(#[trigger] r@[k]),
        plain_relative(path@) ==> forall|k: int| 0 <= k < r@.len() ==> stays_inside(#[trigger] r@[k]),
{
    std::path::Path::new(path).components().map(|c| match c {
        std::path::Component::Prefix(_) => PathPart::Prefix,
        std::path::Component::RootDir => PathPart::RootDir,
        std::path::Component::CurDir => PathPart::CurDir,
        std::path::Component::ParentDir => PathPart::ParentDir,
        std::path::Component::Normal(_) => PathPart::Normal,
    }).collect()
}

/// Whether a folder with these components stays inside the folder it is
/// joined to: it is not absolute, and every component is the current folder
/// or a plain name (no prefix, root or "..").
pub fn folder_is_local(absolute: bool, parts: &Vec<PathPart>) -> (r: bool)
    ensures
        r == (!absolute && forall|k: int| 0 <= k < parts@.len() ==> stays_inside(#[trigger] parts@[k])),
{
    if absolute {
        return false;
    }
    let mut i: usize = 0;
    while i < parts.len()
        invariant
            i <= parts.len(),
            forall|k: int| 0 <= k < i ==> stays_inside(#[trigger] parts@[k]),
        decreases parts.len() - i,
    {
        match parts[i] {
            PathPart::CurDir | PathPart::Normal => {},
            _ => {
                return false;
            },
        }
        i = i + 1;
    }
    true
}

/// Whether a generative folder may be deleted as part of the project: the
/// folder, read by this platform's path rules, is relative and has no
/// prefix, root or ".." component, so joining it to the project folder
/// stays inside. Every platform refuses a folder that starts with a slash
/// or has a ".." between slashes, and accepts a plain relative one; a
/// leading backslash, a drive letter or a ".." between backslashes is read
/// by the platform's own rules.
pub fn is_project_local_folder(folder: &str) -> (r: bool)
    ensures
        leaves_folder_everywhere(folder@) ==> !r,
        plain_relative(folder@) ==> r,
{
    let absolute = path_is_absolute(folder);
    let parts = path_parts(folder);
    folder_is_local(absolute, &parts)
}

} // verus!
