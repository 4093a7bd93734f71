//! The checks an automation command makes before it changes the project:
//! which item a selection command means, which of the identifiers a delete
//! names are missing, and whether a selection may be set.

use vstd::prelude::*;
use crate::editor::id_listed;
use crate::moves::{Track, TrackType, track_with, find_track};
use crate::text::{trim, chars_of, trim_chars, string_of};
use crate::uuid_text::{uuid_string, uuid_text};

verus! {

/// The kinds of project items a command can select by identifier or
/// position.
#[derive(Clone, Copy, Debug, PartialEq, Eq, Structural)]
pub enum ItemKind {
    Clip,
    Asset,
    Track,
    Marker,
}

/// The kind's name at the start of a sentence.
pub open spec fn kind_title(k: ItemKind) -> Seq<char> {
    match k {
        ItemKind::Clip => "Clip"@,
        ItemKind::Asset => "Asset"@,
        ItemKind::Track => "Track"@,
        ItemKind::Marker => "Marker"@,
    }
}

/// The kind's name inside a sentence.
pub open spec fn kind_word(k: ItemKind) -> Seq<char> {
    match k {
        ItemKind::Clip => "clip"@,
        ItemKind::Asset => "asset"@,
        ItemKind::Track => "track"@,
        ItemKind::Marker => "marker"@,
    }
}

fn kind_title_str(k: ItemKind) -> (r: &'static str)
    ensures
        r@ == kind_title(k),
{
    match k {
        ItemKind::Clip => {
            proof {
                reveal_strlit("Clip");
            }
            "Clip"
        },
        ItemKind::Asset => {
            proof {
                reveal_strlit("Asset");
            }
            "Asset"
        },
        ItemKind::Track => {
            proof {
                reveal_strlit("Track");
            }
            "Track"
        },
        ItemKind::Marker => {
            proof {
                reveal_strlit("Marker");
            }
            "Marker"
        },
    }
}

fn kind_word_str(k: ItemKind) -> (r: &'static str)
    ensures
        r@ == kind_word(k),
{
    match k {
        ItemKind::Clip => {
            proof {
                reveal_strlit("clip");
            }
            "clip"
        },
        ItemKind::Asset => {
            proof {
                reveal_strlit("asset");
            }
            "asset"
        },
        ItemKind::Track => {
            proof {
                reveal_strlit("track");
            }
            "track"
        },
        ItemKind::Marker => {
            proof {
                reveal_strlit("marker");
            }
            "marker"
        },
    }
}

/// Why a selection command found no item.
#[derive(Clone, Copy, Debug, PartialEq, Eq, Structural)]
pub enum LookupError {
    /// The identifier given names no item of the kind: a not-found answer.
    NotFound(ItemKind),
    /// No identifier was given and no item stands at the position: a plain
    /// error answer.
    NoMatch(ItemKind),
}

/// The message of a failed lookup.
pub open spec fn lookup_message(e: LookupError) -> Seq<char> {
    match e {
        LookupError::NotFound(k) => kind_title(k) + " not found."@,
        LookupError::NoMatch(k) => "No matching "@ + kind_word(k) + " found."@,
    }
}

impl LookupError {
    /// Whether the answer is "not found" (HTTP 404) rather than a plain error.
    pub fn is_not_found(&self) -> (r: bool)
        ensures
            r == (*self is NotFound),
    {
        match self {
            LookupError::NotFound(_) => true,
            LookupError::NoMatch(_) => false,
        }
    }

    /// The message sent back for the failed lookup.
    pub fn message(&self) -> (r: String)
        ensures
            r@ == lookup_message(*self),
    {
        match self {
            LookupError::NotFound(k) => {
                proof {
                    reveal_strlit(" not found.");
                }
                String::from_str(kind_title_str(*k)).concat(" not found.")
            },
            LookupError::NoMatch(k) => {
                proof {
                    reveal_strlit("No matching ");
                    reveal_strlit(" found.");
                }
                String::from_str("No matching ").concat(kind_word_str(*k)).concat(" found.")
            },
        }
    }
}

/// The item a selection command means: the given identifier when an item
/// has it, else the item at the given position (the first when none is
/// given).
pub open spec fn pick_item(ids: Seq<u128>, kind: ItemKind, id: Option<u128>, index: Option<usize>) -> Result<
    u128,
    LookupError,
> {
    match id {
        Some(x) => if ids.contains(x) {
            Ok(x)
        } else {
            Err(LookupError::NotFound(kind))
        },
        None => {
            let i: int = match index {
                Some(i) => i as int,
                None => 0,
            };
            if i < ids.len() {
                Ok(ids[i])
            } else {
                Err(LookupError::NoMatch(kind))
            }
        },
    }
}

/// Picks the item a selection command means among the project's items of
/// one kind, given by their identifiers in project order.
pub fn select_item(ids: &Vec<u128>, kind: ItemKind, id: Option<u128>, index: Option<usize>) -> (r:
    Result<u128, LookupError>)
    ensures
        r == pick_item(ids@, kind, id, index),
        r matches Ok(x) ==> ids@.contains(x),
{
    match id {
        Some(x) => if id_listed(ids, x) {
            Ok(x)
        } else {
            Err(LookupError::NotFound(kind))
        },
        None => {
            let i: usize = match index {
                Some(i) => i,
                None => 0,
            };
            if i < ids.len() {
                assert(ids@.contains(ids@[i as int]));
                Ok(ids[i])
            } else {
                Err(LookupError::NoMatch(kind))
            }
        },
    }
}

/// The requested identifiers that name no existing item, in request order.
pub open spec fn missing_from(existing: Seq<u128>, requested: Seq<u128>) -> Seq<u128>
    decreases requested.len(),
{
    if requested.len() == 0 {
        seq![]
    } else {
        let rest = missing_from(existing, requested.drop_last());
        if existing.contains(requested.last()) {
            rest
        } else {
            rest.push(requested.last())
        }
    }
}

/// An identifier is missing exactly when it is requested and does not exist.
proof fn lemma_missing_from(existing: Seq<u128>, requested: Seq<u128>)
    ensures
        forall|x: u128| #[trigger]
            missing_from(existing, requested).contains(x) <==> (requested.contains(x)
                && !existing.contains(x)),
    decreases requested.len(),
{
    if requested.len() > 0 {
        let init = requested.drop_last();
        let last = requested.last();
        let rest = missing_from(existing, init);
        lemma_missing_from(existing, init);
        assert(requested =~= init.push(last));
        lemma_push_contains(init, last);
        lemma_push_contains(rest, last);
    }
}

/// What a sequence with one more element holds.
proof fn lemma_push_contains(s: Seq<u128>, v: u128)
    ensures
        forall|x: u128| #[trigger] s.push(v).contains(x) <==> (s.contains(x) || x == v),
{
    assert forall|x: u128| #[trigger] s.push(v).contains(x) <==> (s.contains(x) || x == v) by {
        if s.contains(x) {
            let j = choose|j: int| 0 <= j < s.len() && s[j] == x;
            assert(s.push(v)[j] == x);
        }
        if x == v {
            assert(s.push(v)[s.len() as int] == x);
        }
        if s.push(v).contains(x) && x != v {
            let j = choose|j: int| 0 <= j < s.push(v).len() && s.push(v)[j] == x;
            assert(j < s.len());
            assert(s[j] == x);
        }
    }
}

/// The requested identifiers that name no existing item, in request order.
pub fn missing_ids(existing: &Vec<u128>, requested: &Vec<u128>) -> (r: Vec<u128>)
    ensures
        r@ == missing_from(existing@, requested@),
{
    let mut out: Vec<u128> = Vec::new();
    let mut i: usize = 0;
    while i < requested.len()
        invariant
            i <= requested.len(),
            out@ == missing_from(existing@, requested@.take(i as int)),
        decreases requested.len() - i,
    {
        assert(requested@.take(i + 1).drop_last() =~= requested@.take(i as int));
        if !id_listed(existing, requested[i]) {
            out.push(requested[i]);
        }
        i = i + 1;
    }
    assert(requested@.take(requested.len() as int) =~= requested@);
    out
}

/// Identifiers written out and separated by ", ".
pub open spec fn joined_ids(ids: Seq<u128>) -> Seq<char>
    decreases ids.len(),
{
    if ids.len() == 0 {
        seq![]
    } else if ids.len() == 1 {
        uuid_text(ids[0])
    } else {
        joined_ids(ids.drop_last()) + ", "@ + uuid_text(ids.last())
    }
}

fn join_ids(ids: &Vec<u128>) -> (r: String)
    ensures
        r@ == joined_ids(ids@),
{
    let mut out = String::new();
    let mut i: usize = 0;
    proof {
        reveal_strlit(", ");
    }
    while i < ids.len()
        invariant
            i <= ids.len(),
            out@ == joined_ids(ids@.take(i as int)),
        decreases ids.len() - i,
    {
        assert(ids@.take(i + 1).drop_last() =~= ids@.take(i as int));
        let text = uuid_string(ids[i]);
        if i == 0 {
            out = text;
        } else {
            out = out.concat(", ").concat(text.as_str());
        }
        i = i + 1;
    }
    assert(ids@.take(ids.len() as int) =~= ids@);
    out
}

/// What a delete command can remove.
#[derive(Clone, Copy, Debug, PartialEq, Eq, Structural)]
pub enum DeleteKind {
    Assets,
    Clips,
}

/// A delete command refused because some identifiers name nothing: a
/// not-found answer.
#[derive(Clone, Debug)]
pub struct MissingIds {
    pub kind: DeleteKind,
    /// The missing identifiers, in request order.
    pub ids: Vec<u128>,
}

/// The message of a refused delete.
pub open spec fn missing_ids_message(kind: DeleteKind, ids: Seq<u128>) -> Seq<char> {
    match kind {
        DeleteKind::Assets => "Assets not found: "@ + joined_ids(ids),
        DeleteKind::Clips => "Clips not found: "@ + joined_ids(ids),
    }
}

impl MissingIds {
    /// The HTTP status of the answer: not found.
    pub fn http_status(&self) -> (r: u16)
        ensures
            r == 404,
    {
        404
    }

    /// The message sent back with the not-found answer.
    pub fn message(&self) -> (r: String)
        ensures
            r@ == missing_ids_message(self.kind, self.ids@),
    {
        let joined = join_ids(&self.ids);
        match self.kind {
            DeleteKind::Assets => {
                proof {
                    reveal_strlit("Assets not found: ");
                }
                String::from_str("Assets not found: ").concat(joined.as_str())
            },
            DeleteKind::Clips => {
                proof {
                    reveal_strlit("Clips not found: ");
                }
                String::from_str("Clips not found: ").concat(joined.as_str())
            },
        }
    }
}

/// Checks a delete command: every identifier it names must exist; if some
/// do not, nothing is deleted and they are reported.
pub fn check_delete_targets(kind: DeleteKind, existing: &Vec<u128>, requested: &Vec<u128>) -> (r:
    Result<(), MissingIds>)
    ensures
        r is Ok <==> missing_from(existing@, requested@).len() == 0,
        r matches Err(m) ==> m.kind == kind && m.ids@ == missing_from(existing@, requested@),
{
    let missing = missing_ids(existing, requested);
    if missing.len() == 0 {
        Ok(())
    } else {
        Err(MissingIds { kind, ids: missing })
    }
}

/// A delete goes ahead exactly when every identifier it names exists; a
/// refused one reports each requested identifier that does not exist, and
/// no other.
pub proof fn law_delete_goes_ahead_only_on_existing_items(existing: Seq<u128>, requested: Seq<u128>)
    ensures
        missing_from(existing, requested).len() == 0 <==> (forall|x: u128|
            requested.contains(x) ==> existing.contains(x)),
        forall|x: u128| #[trigger]
            missing_from(existing, requested).contains(x) <==> (requested.contains(x)
                && !existing.contains(x)),
{
    lemma_missing_from(existing, requested);
    let m = missing_from(existing, requested);
    if m.len() != 0 {
        assert(m.contains(m[0]));
        assert(requested.contains(m[0]) && !existing.contains(m[0]));
    } else {
        assert forall|x: u128| requested.contains(x) implies existing.contains(x) by {
            if !existing.contains(x) {
                assert(m.contains(x));
            }
        }
    }
}

/// The identifiers of a project's items of each kind, in project order; or
/// those a command asks to select.
#[derive(Clone, Debug)]
pub struct ItemIds {
    pub clips: Vec<u128>,
    pub assets: Vec<u128>,
    pub tracks: Vec<u128>,
    pub markers: Vec<u128>,
}

/// The first requested identifier that names no existing item.
pub open spec fn first_missing(existing: Seq<u128>, requested: Seq<u128>) -> Option<u128>
    decreases requested.len(),
{
    if requested.len() == 0 {
        None
    } else if !existing.contains(requested[0]) {
        Some(requested[0])
    } else {
        first_missing(existing, requested.drop_first())
    }
}

/// There is a first missing identifier exactly when some requested one
/// does not exist, and it is such a one.
proof fn lemma_first_missing(existing: Seq<u128>, requested: Seq<u128>)
    ensures
        first_missing(existing, requested) is None <==> (forall|x: u128|
            requested.contains(x) ==> existing.contains(x)),
        first_missing(existing, requested) matches Some(x) ==> requested.contains(x)
            && !existing.contains(x),
    decreases requested.len(),
{
    if requested.len() > 0 {
        let tail = requested.drop_first();
        lemma_first_missing(existing, tail);
        if existing.contains(requested[0]) {
            assert forall|x: u128| requested.contains(x) && (forall|y: u128|
                tail.contains(y) ==> existing.contains(y)) implies existing.contains(x) by {
                let j = choose|j: int| 0 <= j < requested.len() && requested[j] == x;
                if j > 0 {
                    assert(tail[j - 1] == x);
                }
            }
            if first_missing(existing, tail) is Some {
                let x = first_missing(existing, tail)->0;
                assert(tail.contains(x) && !existing.contains(x));
                let j = choose|j: int| 0 <= j < tail.len() && tail[j] == x;
                assert(requested[j + 1] == x);
            }
        } else {
            assert(requested.contains(requested[0]));
        }
    }
}

/// The first requested identifier that names no existing item.
fn find_first_missing(existing: &Vec<u128>, requested: &Vec<u128>) -> (r: Option<u128>)
    ensures
        r == first_missing(existing@, requested@),
{
    let mut i: usize = 0;
    assert(requested@.skip(0) =~= requested@);
    while i < requested.len()
        invariant
            i <= requested.len(),
            first_missing(existing@, requested@) == first_missing(existing@, requested@.skip(i as int)),
        decreases requested.len() - i,
    {
        assert(requested@.skip(i as int).drop_first() =~= requested@.skip(i + 1));
        if !id_listed(existing, requested[i]) {
            return Some(requested[i]);
        }
        i = i + 1;
    }
    None
}

/// An identifier a selection names that no item of its kind has: a
/// not-found answer.
#[derive(Clone, Copy, Debug, PartialEq, Eq, Structural)]
pub struct MissingItem {
    pub kind: ItemKind,
    pub id: u128,
}

/// The message of a missing selection item.
pub open spec fn missing_item_message(m: MissingItem) -> Seq<char> {
    kind_title(m.kind) + " not found: "@ + uuid_text(m.id)
}

impl MissingItem {
    /// The HTTP status of the answer: not found.
    pub fn http_status(&self) -> (r: u16)
        ensures
            r == 404,
    {
        404
    }

    /// The message sent back with the not-found answer.
    pub fn message(&self) -> (r: String)
        ensures
            r@ == missing_item_message(*self),
    {
        proof {
            reveal_strlit(" not found: ");
        }
        String::from_str(kind_title_str(self.kind)).concat(" not found: ").concat(
            uuid_string(self.id).as_str(),
        )
    }
}

/// What is wrong with a requested selection: the first missing clip, else
/// the first missing asset, track, then marker.
pub open spec fn selection_problem(items: ItemIds, request: ItemIds) -> Option<MissingItem> {
    match first_missing(items.clips@, request.clips@) {
        Some(id) => Some(MissingItem { kind: ItemKind::Clip, id }),
        None => match first_missing(items.assets@, request.assets@) {
            Some(id) => Some(MissingItem { kind: ItemKind::Asset, id }),
            None => match first_missing(items.tracks@, request.tracks@) {
                Some(id) => Some(MissingItem { kind: ItemKind::Track, id }),
                None => match first_missing(items.markers@, request.markers@) {
                    Some(id) => Some(MissingItem { kind: ItemKind::Marker, id }),
                    None => None,
                },
            },
        },
    }
}

/// Checks a request to set the selection: every identifier it names must
/// belong to an item of its kind; the first that does not is reported.
pub fn check_selection(items: &ItemIds, request: &ItemIds) -> (r: Result<(), MissingItem>)
    ensures
        match selection_problem(*items, *request) {
            None => r is Ok,
            Some(m) => r == Err::<(), MissingItem>(m),
        },
{
    if let Some(id) = find_first_missing(&items.clips, &request.clips) {
        return Err(MissingItem { kind: ItemKind::Clip, id });
    }
    if let Some(id) = find_first_missing(&items.assets, &request.assets) {
        return Err(MissingItem { kind: ItemKind::Asset, id });
    }
    if let Some(id) = find_first_missing(&items.tracks, &request.tracks) {
        return Err(MissingItem { kind: ItemKind::Track, id });
    }
    if let Some(id) = find_first_missing(&items.markers, &request.markers) {
        return Err(MissingItem { kind: ItemKind::Marker, id });
    }
    Ok(())
}

/// Every identifier of a list belongs to the items.
pub open spec fn all_exist(existing: Seq<u128>, requested: Seq<u128>) -> bool {
    forall|x: u128| requested.contains(x) ==> existing.contains(x)
}

/// A selection is set exactly when each identifier it names belongs to an
/// item of its kind; a refused one names a requested identifier of the
/// reported kind that no such item has.
pub proof fn law_selection_names_only_existing_items(items: ItemIds, request: ItemIds)
    ensures
        selection_problem(items, request) is None <==> {
            &&& all_exist(items.clips@, request.clips@)
            &&& all_exist(items.assets@, request.assets@)
            &&& all_exist(items.tracks@, request.tracks@)
            &&& all_exist(items.markers@, request.markers@)
        },
        selection_problem(items, request) matches Some(m) ==> match m.kind {
            ItemKind::Clip => request.clips@.contains(m.id) && !items.clips@.contains(m.id),
            ItemKind::Asset => request.assets@.contains(m.id) && !items.assets@.contains(m.id),
            ItemKind::Track => request.tracks@.contains(m.id) && !items.tracks@.contains(m.id),
            ItemKind::Marker => request.markers@.contains(m.id) && !items.markers@.contains(m.id),
        },
{
    lemma_first_missing(items.clips@, request.clips@);
    lemma_first_missing(items.assets@, request.assets@);
    lemma_first_missing(items.tracks@, request.tracks@);
    lemma_first_missing(items.markers@, request.markers@);
}

/// Why a marker cannot go on the track a command names.
#[derive(Clone, Copy, Debug, PartialEq, Eq, Structural)]
pub enum MarkerTrackError {
    /// No track has the identifier: a not-found answer.
    TrackNotFound,
    /// The track holds clips, not markers: a conflict.
    NotMarkerTrack,
}

impl MarkerTrackError {
    /// The HTTP status: 404 for a missing track, 409 for a track of clips.
    pub fn http_status(&self) -> (r: u16)
        ensures
            r == match *self {
                MarkerTrackError::TrackNotFound => 404u16,
                MarkerTrackError::NotMarkerTrack => 409u16,
            },
    {
        match self {
            MarkerTrackError::TrackNotFound => 404,
            MarkerTrackError::NotMarkerTrack => 409,
        }
    }

    /// The message sent back with the refusal.
    pub fn message(&self) -> (r: &'static str)
        ensures
            r@ == match *self {
                MarkerTrackError::TrackNotFound => "Track not found."@,
                MarkerTrackError::NotMarkerTrack => "Track is not a marker track."@,
            },
    {
        match self {
            MarkerTrackError::TrackNotFound => "Track not found.",
            MarkerTrackError::NotMarkerTrack => "Track is not a marker track.",
        }
    }
}

/// Checks the track a marker command names, if any: it must exist and be a
/// marker track.
pub fn check_marker_track(tracks: &Vec<Track>, track_id: Option<u128>) -> (r: Result<(), MarkerTrackError>)
    ensures
        r == match track_id {
            None => Ok::<(), MarkerTrackError>(()),
            Some(id) => match track_with(tracks@, id) {
                None => Err(MarkerTrackError::TrackNotFound),
                Some(t) => if t.track_type == TrackType::Marker {
                    Ok(())
                } else {
                    Err(MarkerTrackError::NotMarkerTrack)
                },
            },
        },
{
    match track_id {
        None => Ok(()),
        Some(id) => match find_track(tracks, id) {
            None => Err(MarkerTrackError::TrackNotFound),
            Some(t) => if t.track_type == TrackType::Marker {
                Ok(())
            } else {
                Err(MarkerTrackError::NotMarkerTrack)
            },
        },
    }
}

/// The name a track takes from a request to rename it: the requested name
/// without surrounding white space, unless that leaves nothing, in which
/// case the track keeps its name.
pub fn requested_track_name(name: Option<&str>) -> (r: Option<String>)
    ensures
        name is None ==> r is None,
        name matches Some(n) ==> (r is Some <==> trim(n@).len() > 0),
        r matches Some(t) ==> name matches Some(n) && t@ == trim(n@),
{
    match name {
        None => None,
        Some(n) => {
            let trimmed = trim_chars(&chars_of(n));
            if trimmed.len() == 0 {
                None
            } else {
                Some(string_of(&trimmed))
            }
        },
    }
}

} // verus!
