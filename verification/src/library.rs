//! The asset library panel's logic: labels, filters, search and row order.

use vstd::prelude::*;
use std::cmp::Ordering;
use crate::model::{
    Asset, AssetKind, ProviderEntry, ProviderOutputType, kind_is_video, kind_is_image,
    kind_is_audio, kind_is_generative, kind_media, kind_source,
};
use crate::natural::{natural_case_insensitive_cmp, ordering_sign, lex_sign_exec, ordering_from_sign, lemma_lex_sign_range};
use crate::natural_spec::{natural_sign, lex_sign, int_sign, law_natural_order_antisymmetric, lemma_lex_sign_antisymmetric};
use crate::text::{chars_of, contains_chars, seq_contains, to_lowercase, unicode_lowercase};

verus! {

/// The short badge shown for an asset without a thumbnail.
pub open spec fn icon_text(kind: AssetKind) -> Seq<char> {
    if kind_is_video(kind) {
        "VID"@
    } else if kind_is_image(kind) {
        "IMG"@
    } else {
        "AUD"@
    }
}

/// The human label of an asset kind.
pub open spec fn kind_label(kind: AssetKind) -> Seq<char> {
    match kind {
        AssetKind::Video { .. } => "Video"@,
        AssetKind::Image { .. } => "Image"@,
        AssetKind::Audio { .. } => "Audio"@,
        AssetKind::GenerativeVideo { .. } => "Generative Video"@,
        AssetKind::GenerativeImage { .. } => "Generative Image"@,
        AssetKind::GenerativeAudio { .. } => "Generative Audio"@,
    }
}

/// The short badge shown for an asset without a thumbnail.
pub fn asset_icon(asset: &Asset) -> (r: &'static str)
    ensures
        r@ == icon_text(asset.kind),
{
    match asset.kind {
        AssetKind::Video { .. } | AssetKind::GenerativeVideo { .. } => "VID",
        AssetKind::Image { .. } | AssetKind::GenerativeImage { .. } => "IMG",
        AssetKind::Audio { .. } | AssetKind::GenerativeAudio { .. } => "AUD",
    }
}

/// The human label of an asset kind.
pub fn asset_kind_label(kind: &AssetKind) -> (r: &'static str)
    ensures
        r@ == kind_label(*kind),
{
    match kind {
        AssetKind::Video { .. } => "Video",
        AssetKind::Image { .. } => "Image",
        AssetKind::Audio { .. } => "Audio",
        AssetKind::GenerativeVideo { .. } => "Generative Video",
        AssetKind::GenerativeImage { .. } => "Generative Image",
        AssetKind::GenerativeAudio { .. } => "Generative Audio",
    }
}

/// The media type an asset holds, which a provider must produce to generate it.
pub fn asset_provider_output_type(asset: &Asset) -> (r: Option<ProviderOutputType>)
    ensures
        r == Some(kind_media(asset.kind)),
{
    match asset.kind {
        AssetKind::Image { .. } | AssetKind::GenerativeImage { .. } => Some(
            ProviderOutputType::Image,
        ),
        AssetKind::Video { .. } | AssetKind::GenerativeVideo { .. } => Some(
            ProviderOutputType::Video,
        ),
        AssetKind::Audio { .. } | AssetKind::GenerativeAudio { .. } => Some(
            ProviderOutputType::Audio,
        ),
    }
}

/// Whether `provider` produces the media type that `asset` holds.
pub fn provider_matches_asset_output(asset: &Asset, provider: &ProviderEntry) -> (r: bool)
    ensures
        r == (kind_media(asset.kind) == provider.output_type),
{
    match asset_provider_output_type(asset) {
        Some(t) => t == provider.output_type,
        None => false,
    }
}

/// Which assets the library shows.
#[derive(Clone, Copy, Debug, PartialEq, Eq, Structural)]
pub enum AssetLibraryFilter {
    All,
    Video,
    Image,
    Audio,
    Generative,
}

impl AssetLibraryFilter {
    /// The filter's menu label.
    pub fn label(self) -> (r: &'static str)
        ensures
            r@ == match self {
                AssetLibraryFilter::All => "All assets"@,
                AssetLibraryFilter::Video => "Video"@,
                AssetLibraryFilter::Image => "Images"@,
                AssetLibraryFilter::Audio => "Audio"@,
                AssetLibraryFilter::Generative => "Generative"@,
            },
    {
        match self {
            AssetLibraryFilter::All => "All assets",
            AssetLibraryFilter::Video => "Video",
            AssetLibraryFilter::Image => "Images",
            AssetLibraryFilter::Audio => "Audio",
            AssetLibraryFilter::Generative => "Generative",
        }
    }

    /// Whether the filter shows `asset`.
    pub fn matches(self, asset: &Asset) -> (r: bool)
        ensures
            r == match self {
                AssetLibraryFilter::All => true,
                AssetLibraryFilter::Video => kind_is_video(asset.kind),
                AssetLibraryFilter::Image => kind_is_image(asset.kind),
                AssetLibraryFilter::Audio => kind_is_audio(asset.kind),
                AssetLibraryFilter::Generative => kind_is_generative(asset.kind),
            },
    {
        match self {
            AssetLibraryFilter::All => true,
            AssetLibraryFilter::Video => asset.is_video(),
            AssetLibraryFilter::Image => asset.is_image(),
            AssetLibraryFilter::Audio => asset.is_audio(),
            AssetLibraryFilter::Generative => asset.is_generative(),
        }
    }
}

/// How the library orders its rows.
#[derive(Clone, Copy, Debug, PartialEq, Eq, Structural)]
pub enum AssetLibrarySort {
    Name,
    RecentlyAdded,
    TimelineUse,
}

impl AssetLibrarySort {
    /// The sort's menu label.
    pub fn label(self) -> (r: &'static str)
        ensures
            r@ == match self {
                AssetLibrarySort::Name => "Name"@,
                AssetLibrarySort::RecentlyAdded => "Recently added"@,
                AssetLibrarySort::TimelineUse => "Timeline use"@,
            },
    {
        match self {
            AssetLibrarySort::Name => "Name",
            AssetLibrarySort::RecentlyAdded => "Recently added",
            AssetLibrarySort::TimelineUse => "Timeline use",
        }
    }
}

/// Whether the library groups its rows.
#[derive(Clone, Copy, Debug, PartialEq, Eq, Structural)]
pub enum AssetLibraryGrouping {
    Ungrouped,
    MediaType,
}

impl AssetLibraryGrouping {
    /// The grouping's menu label.
    pub fn label(self) -> (r: &'static str)
        ensures
            r@ == match self {
                AssetLibraryGrouping::Ungrouped => "No grouping"@,
                AssetLibraryGrouping::MediaType => "Group by media type"@,
            },
    {
        match self {
            AssetLibraryGrouping::Ungrouped => "No grouping",
            AssetLibraryGrouping::MediaType => "Group by media type",
        }
    }
}

/// The media group an asset is listed under.
#[derive(Clone, Copy, Debug, PartialEq, Eq, Structural)]
pub enum AssetMediaGroup {
    Video,
    Image,
    Audio,
}

impl AssetMediaGroup {
    /// The group's header label.
    pub fn label(self) -> (r: &'static str)
        ensures
            r@ == match self {
                AssetMediaGroup::Video => "Video"@,
                AssetMediaGroup::Image => "Images"@,
                AssetMediaGroup::Audio => "Audio"@,
            },
    {
        match self {
            AssetMediaGroup::Video => "Video",
            AssetMediaGroup::Image => "Images",
            AssetMediaGroup::Audio => "Audio",
        }
    }
}

/// The media group an asset is listed under.
pub fn asset_media_group(asset: &Asset) -> (r: AssetMediaGroup)
    ensures
        r == (if kind_is_video(asset.kind) {
            AssetMediaGroup::Video
        } else if kind_is_image(asset.kind) {
            AssetMediaGroup::Image
        } else {
            AssetMediaGroup::Audio
        }),
{
    if asset.is_video() {
        AssetMediaGroup::Video
    } else if asset.is_image() {
        AssetMediaGroup::Image
    } else {
        AssetMediaGroup::Audio
    }
}

/// Whether an asset matches a search query that is already lower-cased:
/// every asset matches the empty query; otherwise the query must occur in the
/// lower-cased name, kind label or source path.
pub open spec fn search_matches(asset: Asset, query: Seq<char>) -> bool {
    query.len() == 0 || seq_contains(unicode_lowercase(asset.name@), query)
        || seq_contains(unicode_lowercase(kind_label(asset.kind)), query)
        || seq_contains(unicode_lowercase(kind_source(asset.kind)), query)
}

/// Whether an asset matches a lower-cased search query.
pub fn asset_matches_search(asset: &Asset, normalized_query: &str) -> (r: bool)
    ensures
        r == search_matches(*asset, normalized_query@),
{
    let query = chars_of(normalized_query);
    if query.len() == 0 {
        return true;
    }
    let source: &String = match &asset.kind {
        AssetKind::Video { path } | AssetKind::Image { path } | AssetKind::Audio { path } => path,
        AssetKind::GenerativeVideo { folder, .. }
        | AssetKind::GenerativeImage { folder, .. }
        | AssetKind::GenerativeAudio { folder, .. } => folder,
    };
    let name = chars_of(to_lowercase(asset.name.as_str()).as_str());
    let label = chars_of(to_lowercase(asset_kind_label(&asset.kind)).as_str());
    let src = chars_of(to_lowercase(source.as_str()).as_str());
    contains_chars(&name, &query) || contains_chars(&label, &query) || contains_chars(&src, &query)
}

/// The order of two assets by name: natural order of the names, then the
/// code-point order of the kind labels, then the identifiers; as a sign.
pub open spec fn asset_order(a: Asset, b: Asset) -> int {
    let n = natural_sign(a.name@, b.name@);
    if n != 0 {
        n
    } else {
        let k = lex_sign(kind_label(a.kind), kind_label(b.kind));
        if k != 0 {
            k
        } else {
            int_sign(a.id - b.id)
        }
    }
}

/// How many timeline clips use asset `id` according to a use table
/// (absent ids count zero).
pub open spec fn use_count(uses: Seq<(u128, usize)>, id: u128) -> int
    decreases uses.len(),
{
    if uses.len() == 0 {
        0
    } else if uses[0].0 == id {
        uses[0].1 as int
    } else {
        use_count(uses.drop_first(), id)
    }
}

/// The order of two library rows (an asset and its position in the
/// project), as a sign.
pub open spec fn row_order(
    sort: AssetLibrarySort,
    a_index: usize,
    a: Asset,
    b_index: usize,
    b: Asset,
    uses: Seq<(u128, usize)>,
) -> int {
    match sort {
        AssetLibrarySort::Name => {
            let o = asset_order(a, b);
            if o != 0 {
                o
            } else {
                int_sign(a_index - b_index)
            }
        },
        AssetLibrarySort::RecentlyAdded => {
            let o = int_sign(b_index - a_index);
            if o != 0 {
                o
            } else {
                asset_order(a, b)
            }
        },
        AssetLibrarySort::TimelineUse => {
            let o = int_sign(use_count(uses, b.id) - use_count(uses, a.id));
            if o != 0 {
                o
            } else {
                let p = asset_order(a, b);
                if p != 0 {
                    p
                } else {
                    int_sign(a_index - b_index)
                }
            }
        },
    }
}

/// Orders two assets by name: natural order of the names, then the kind
/// labels, then the identifiers.
pub fn asset_natural_cmp(a: &Asset, b: &Asset) -> (r: Ordering)
    ensures
        ordering_sign(r) == asset_order(*a, *b),
{
    let n = natural_case_insensitive_cmp(a.name.as_str(), b.name.as_str());
    match n {
        Ordering::Equal => {},
        _ => {
            return n;
        },
    }
    let la = chars_of(asset_kind_label(&a.kind));
    let lb = chars_of(asset_kind_label(&b.kind));
    let k = lex_sign_exec(&la, &lb);
    proof {
        lemma_lex_sign_range(la@, lb@);
    }
    if k != 0 {
        return ordering_from_sign(k);
    }
    if a.id < b.id {
        Ordering::Less
    } else if a.id > b.id {
        Ordering::Greater
    } else {
        Ordering::Equal
    }
}

/// How many timeline clips use asset `id` according to a use table.
fn timeline_use_of(uses: &Vec<(u128, usize)>, id: u128) -> (r: usize)
    ensures
        r == use_count(uses@, id),
{
    let mut i: usize = 0;
    assert(uses@.skip(0) =~= uses@);
    while i < uses.len()
        invariant
            i <= uses.len(),
            use_count(uses@, id) == use_count(uses@.skip(i as int), id),
        decreases uses.len() - i,
    {
        assert(uses@.skip(i as int).drop_first() =~= uses@.skip(i + 1));
        if uses[i].0 == id {
            return uses[i].1;
        }
        i = i + 1;
    }
    0
}

/// The order of two index signs.
fn index_order(a: usize, b: usize) -> (r: Ordering)
    ensures
        ordering_sign(r) == int_sign(a - b),
{
    if a < b {
        Ordering::Less
    } else if a > b {
        Ordering::Greater
    } else {
        Ordering::Equal
    }
}

/// Orders two library rows for the chosen sort: by name (ties by position),
/// newest first (ties by name), or by timeline use, most used first (ties by
/// name, then position).
pub fn compare_asset_rows(
    sort: AssetLibrarySort,
    a_index: usize,
    a: &Asset,
    b_index: usize,
    b: &Asset,
    timeline_use: &Vec<(u128, usize)>,
) -> (r: Ordering)
    ensures
        ordering_sign(r) == row_order(sort, a_index, *a, b_index, *b, timeline_use@),
{
    match sort {
        AssetLibrarySort::Name => {
            let o = asset_natural_cmp(a, b);
            match o {
                Ordering::Equal => index_order(a_index, b_index),
                _ => o,
            }
        },
        AssetLibrarySort::RecentlyAdded => {
            let o = index_order(b_index, a_index);
            match o {
                Ordering::Equal => asset_natural_cmp(a, b),
                _ => o,
            }
        },
        AssetLibrarySort::TimelineUse => {
            let ua = timeline_use_of(timeline_use, a.id);
            let ub = timeline_use_of(timeline_use, b.id);
            let o = index_order(ub, ua);
            match o {
                Ordering::Equal => {
                    let p = asset_natural_cmp(a, b);
                    match p {
                        Ordering::Equal => index_order(a_index, b_index),
                        _ => p,
                    }
                },
                _ => o,
            }
        },
    }
}

/// The place of an asset's media group in the grouped library: video,
/// then images, then audio.
pub open spec fn group_rank(asset: Asset) -> int {
    if kind_is_video(asset.kind) {
        0
    } else if kind_is_image(asset.kind) {
        1
    } else {
        2
    }
}

/// The order of the library rows at positions `i` and `j` of `assets`, as
/// a sign: by media group when grouping by media type, then by the chosen
/// sort.
pub open spec fn shown_row_order(
    assets: Seq<Asset>,
    grouping: AssetLibraryGrouping,
    sort: AssetLibrarySort,
    uses: Seq<(u128, usize)>,
    i: usize,
    j: usize,
) -> int {
    let g = if grouping == AssetLibraryGrouping::MediaType {
        int_sign(group_rank(assets[i as int]) - group_rank(assets[j as int]))
    } else {
        0
    };
    if g != 0 {
        g
    } else {
        row_order(sort, i, assets[i as int], j, assets[j as int], uses)
    }
}

/// The place of an asset's media group.
fn media_group_rank(asset: &Asset) -> (r: u8)
    ensures
        r == group_rank(*asset),
{
    match asset_media_group(asset) {
        AssetMediaGroup::Video => 0,
        AssetMediaGroup::Image => 1,
        AssetMediaGroup::Audio => 2,
    }
}

/// Whether the row at position `i` comes after the row at position `j`.
pub fn row_comes_after(
    assets: &Vec<Asset>,
    grouping: AssetLibraryGrouping,
    sort: AssetLibrarySort,
    timeline_use: &Vec<(u128, usize)>,
    i: usize,
    j: usize,
) -> (r: bool)
    requires
        i < assets@.len(),
        j < assets@.len(),
    ensures
        r == (shown_row_order(assets@, grouping, sort, timeline_use@, i, j) > 0),
{
    if grouping == AssetLibraryGrouping::MediaType {
        let gi = media_group_rank(&assets[i]);
        let gj = media_group_rank(&assets[j]);
        if gi > gj {
            return true;
        }
        if gi < gj {
            return false;
        }
    }
    match compare_asset_rows(sort, i, &assets[i], j, &assets[j], timeline_use) {
        Ordering::Greater => true,
        _ => false,
    }
}

proof fn lemma_asset_order_antisymmetric(a: Asset, b: Asset)
    ensures
        asset_order(a, b) == -asset_order(b, a),
{
    law_natural_order_antisymmetric(a.name@, b.name@);
    lemma_lex_sign_antisymmetric(kind_label(a.kind), kind_label(b.kind));
}

/// Swapping two library rows reverses their order, for every sort.
pub proof fn law_row_order_antisymmetric(
    sort: AssetLibrarySort,
    a_index: usize,
    a: Asset,
    b_index: usize,
    b: Asset,
    uses: Seq<(u128, usize)>,
)
    ensures
        row_order(sort, a_index, a, b_index, b, uses) == -row_order(
            sort,
            b_index,
            b,
            a_index,
            a,
            uses,
        ),
{
    lemma_asset_order_antisymmetric(a, b);
}

/// Two rows at different positions never tie, so sorting the library is
/// deterministic for every sort.
pub proof fn law_row_order_distinct_rows_never_tie(
    sort: AssetLibrarySort,
    a_index: usize,
    a: Asset,
    b_index: usize,
    b: Asset,
    uses: Seq<(u128, usize)>,
)
    requires
        a_index != b_index,
    ensures
        row_order(sort, a_index, a, b_index, b, uses) != 0,
{
}

} // verus!
