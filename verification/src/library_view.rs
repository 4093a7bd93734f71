//! Which assets the library panel shows, and the line that sums the view up.

use vstd::prelude::*;
use crate::model::{Asset, kind_is_video, kind_is_image, kind_is_audio, kind_is_generative};
use crate::library::{
    AssetLibraryFilter, AssetLibraryGrouping, AssetLibrarySort, asset_matches_search, row_comes_after,
    search_matches, shown_row_order,
};
use crate::sorting::{
    asymmetric, sort_by, lemma_insert_by_at, lemma_sort_by_multiset, lemma_sort_by_ordered, lemma_sort_by_step,
};
use crate::library::law_row_order_antisymmetric;
use crate::editor::id_listed;
use crate::text::{decimal, decimal_string};

verus! {

/// Whether the filter shows `asset`.
pub open spec fn filter_shows(filter: AssetLibraryFilter, asset: Asset) -> bool {
    match filter {
        AssetLibraryFilter::All => true,
        AssetLibraryFilter::Video => kind_is_video(asset.kind),
        AssetLibraryFilter::Image => kind_is_image(asset.kind),
        AssetLibraryFilter::Audio => kind_is_audio(asset.kind),
        AssetLibraryFilter::Generative => kind_is_generative(asset.kind),
    }
}

/// Whether the library shows `asset`: the asset revealed on purpose always,
/// others when the filter shows them and they match the (lower-cased) query.
pub open spec fn row_visible(
    asset: Asset,
    filter: AssetLibraryFilter,
    query: Seq<char>,
    reveal_override: Option<u128>,
) -> bool {
    reveal_override == Some(asset.id) || (filter_shows(filter, asset) && search_matches(asset, query))
}

/// Whether the library shows `asset`.
pub fn asset_row_visible(
    asset: &Asset,
    filter: AssetLibraryFilter,
    normalized_query: &str,
    reveal_override: Option<u128>,
) -> (r: bool)
    ensures
        r == row_visible(*asset, filter, normalized_query@, reveal_override),
{
    if let Some(id) = reveal_override {
        if id == asset.id {
            return true;
        }
    }
    filter.matches(asset) && asset_matches_search(asset, normalized_query)
}

/// The positions of the shown assets, in project order.
pub open spec fn visible_indices(
    assets: Seq<Asset>,
    filter: AssetLibraryFilter,
    query: Seq<char>,
    reveal_override: Option<u128>,
) -> Seq<usize>
    decreases assets.len(),
{
    if assets.len() == 0 {
        seq![]
    } else {
        let rest = visible_indices(assets.drop_last(), filter, query, reveal_override);
        if row_visible(assets.last(), filter, query, reveal_override) {
            rest.push((assets.len() - 1) as usize)
        } else {
            rest
        }
    }
}

/// The positions of the assets the library shows, in project order.
pub fn visible_asset_indices(
    assets: &Vec<Asset>,
    filter: AssetLibraryFilter,
    normalized_query: &str,
    reveal_override: Option<u128>,
) -> (r: Vec<usize>)
    ensures
        r@ == visible_indices(assets@, filter, normalized_query@, reveal_override),
{
    let mut out: Vec<usize> = Vec::new();
    let n = assets.len();
    for i in 0..n
        invariant
            n == assets@.len(),
            out@ == visible_indices(assets@.take(i as int), filter, normalized_query@, reveal_override),
    {
        assert(assets@.take(i + 1).drop_last() =~= assets@.take(i as int));
        assert(assets@.take(i + 1).last() == assets@[i as int]);
        if asset_row_visible(&assets[i], filter, normalized_query, reveal_override) {
            out.push(i);
        }
    }
    assert(assets@.take(n as int) =~= assets@);
    out
}

/// Every shown position is a position of the project's assets.
proof fn lemma_visible_indices_in_range(
    assets: Seq<Asset>,
    filter: AssetLibraryFilter,
    query: Seq<char>,
    reveal_override: Option<u128>,
)
    ensures
        forall|k: int|
            0 <= k < visible_indices(assets, filter, query, reveal_override).len() ==> #[trigger] visible_indices(
                assets,
                filter,
                query,
                reveal_override,
            )[k] < assets.len(),
    decreases assets.len(),
{
    if assets.len() > 0 {
        lemma_visible_indices_in_range(assets.drop_last(), filter, query, reveal_override);
        let rest = visible_indices(assets.drop_last(), filter, query, reveal_override);
        let v = visible_indices(assets, filter, query, reveal_override);
        assert forall|k: int| 0 <= k < v.len() implies #[trigger] v[k] < assets.len() by {
            if k < rest.len() {
                assert(v[k] == rest[k]);
                assert(rest[k] < assets.drop_last().len());
            }
        }
    }
}

/// Whether the row at position `a` must be listed after the row at `b`.
pub open spec fn row_listed_after(
    assets: Seq<Asset>,
    grouping: AssetLibraryGrouping,
    sort: AssetLibrarySort,
    uses: Seq<(u128, usize)>,
    a: usize,
    b: usize,
) -> bool {
    shown_row_order(assets, grouping, sort, uses, a, b) > 0
}

/// The rows the library lists, in order: the shown positions arranged by
/// a stable sort by media group (when grouping by media type), then by the
/// chosen sort.
pub open spec fn library_rows(
    assets: Seq<Asset>,
    filter: AssetLibraryFilter,
    query: Seq<char>,
    reveal_override: Option<u128>,
    grouping: AssetLibraryGrouping,
    sort: AssetLibrarySort,
    uses: Seq<(u128, usize)>,
) -> Seq<usize> {
    sort_by(
        visible_indices(assets, filter, query, reveal_override),
        |a: usize, b: usize| row_listed_after(assets, grouping, sort, uses, a, b),
    )
}

/// Arranges asset positions by a stable sort by media group (when grouping
/// by media type), then by the chosen sort.
pub fn sort_library_rows(
    assets: &Vec<Asset>,
    rows: Vec<usize>,
    grouping: AssetLibraryGrouping,
    sort: AssetLibrarySort,
    timeline_use: &Vec<(u128, usize)>,
) -> (r: Vec<usize>)
    requires
        forall|k: int| 0 <= k < rows@.len() ==> #[trigger] rows@[k] < assets@.len(),
    ensures
        r@ == sort_by(rows@, |a: usize, b: usize| row_listed_after(assets@, grouping, sort, timeline_use@, a, b)),
{
    let ghost input = rows@;
    let ghost after = |a: usize, b: usize| row_listed_after(assets@, grouping, sort, timeline_use@, a, b);
    let mut out: Vec<usize> = Vec::new();
    let n = rows.len();
    assert(input.take(0) =~= Seq::<usize>::empty());
    for i in 0..n
        invariant
            n == input.len(),
            input == rows@,
            forall|k: int| 0 <= k < input.len() ==> #[trigger] input[k] < assets@.len(),
            after == (|a: usize, b: usize| row_listed_after(assets@, grouping, sort, timeline_use@, a, b)),
            out@ == sort_by(input.take(i as int), after),
            forall|k: int| 0 <= k < out@.len() ==> #[trigger] out@[k] < assets@.len(),
    {
        let x = rows[i];
        let ghost before = out@;
        let mut j: usize = out.len();
        while j > 0
            invariant
                j <= out@.len(),
                before == out@,
                x < assets@.len(),
                forall|k: int| 0 <= k < out@.len() ==> #[trigger] out@[k] < assets@.len(),
                after == (|a: usize, b: usize| row_listed_after(assets@, grouping, sort, timeline_use@, a, b)),
                forall|k: int| j <= k < out@.len() ==> after(#[trigger] before[k], x),
            ensures
                j <= out@.len(),
                j == 0 || !after(before[j - 1], x),
                forall|k: int| j <= k < out@.len() ==> after(#[trigger] before[k], x),
            decreases j,
        {
            if row_comes_after(assets, grouping, sort, timeline_use, out[j - 1], x) {
                j = j - 1;
            } else {
                break;
            }
        }
        proof {
            lemma_insert_by_at(before, x, after, j as int);
            lemma_sort_by_step(input, i as int, after);
        }
        out.insert(j, x);
        proof {
            assert forall|k: int| 0 <= k < out@.len() implies #[trigger] out@[k] < assets@.len() by {
                if k < j {
                    assert(out@[k] == before[k]);
                } else if k > j {
                    assert(out@[k] == before[k - 1]);
                }
            }
        }
    }
    assert(input.take(n as int) =~= input);
    out
}

/// The rows the library lists: the positions of the shown assets (the one
/// revealed on purpose, and those the filter shows that match the
/// lower-cased query), arranged by a stable sort by media group when
/// grouping by media type, then by the chosen sort.
pub fn asset_library_rows(
    assets: &Vec<Asset>,
    filter: AssetLibraryFilter,
    normalized_query: &str,
    reveal_override: Option<u128>,
    grouping: AssetLibraryGrouping,
    sort: AssetLibrarySort,
    timeline_use: &Vec<(u128, usize)>,
) -> (r: Vec<usize>)
    ensures
        r@ == library_rows(assets@, filter, normalized_query@, reveal_override, grouping, sort, timeline_use@),
{
    let rows = visible_asset_indices(assets, filter, normalized_query, reveal_override);
    proof {
        lemma_visible_indices_in_range(assets@, filter, normalized_query@, reveal_override);
    }
    sort_library_rows(assets, rows, grouping, sort, timeline_use)
}

/// The library lists exactly the shown rows, each as often as it is shown,
/// and never lists a row before one that its order puts first.
pub proof fn law_library_rows_are_the_shown_rows_in_order(
    assets: Seq<Asset>,
    filter: AssetLibraryFilter,
    query: Seq<char>,
    reveal_override: Option<u128>,
    grouping: AssetLibraryGrouping,
    sort: AssetLibrarySort,
    uses: Seq<(u128, usize)>,
)
    ensures
        library_rows(assets, filter, query, reveal_override, grouping, sort, uses).to_multiset()
            == visible_indices(assets, filter, query, reveal_override).to_multiset(),
        forall|k: int|
            0 <= k < library_rows(assets, filter, query, reveal_override, grouping, sort, uses).len() - 1
                ==> !row_listed_after(
                assets,
                grouping,
                sort,
                uses,
                #[trigger] library_rows(assets, filter, query, reveal_override, grouping, sort, uses)[k],
                library_rows(assets, filter, query, reveal_override, grouping, sort, uses)[k + 1],
            ),
{
    let after = |a: usize, b: usize| row_listed_after(assets, grouping, sort, uses, a, b);
    let v = visible_indices(assets, filter, query, reveal_override);
    assert(asymmetric(after)) by {
        assert forall|a: usize, b: usize| #[trigger] after(a, b) implies !after(b, a) by {
            law_row_order_antisymmetric(sort, a, assets[a as int], b, assets[b as int], uses);
        }
    }
    lemma_sort_by_multiset(v, after);
    lemma_sort_by_ordered(v, after);
}

/// How many selected identifiers are not among the shown ones (a repeated
/// identifier counts each time).
pub open spec fn hidden_count(selected: Seq<u128>, visible: Seq<u128>) -> nat
    decreases selected.len(),
{
    if selected.len() == 0 {
        0
    } else {
        hidden_count(selected.drop_last(), visible) + if visible.contains(selected.last()) {
            0nat
        } else {
            1nat
        }
    }
}

/// How many selected assets the current view hides.
pub fn hidden_selected_count(selected: &Vec<u128>, visible_ids: &Vec<u128>) -> (r: usize)
    ensures
        r == hidden_count(selected@, visible_ids@),
{
    let mut count: usize = 0;
    let n = selected.len();
    for i in 0..n
        invariant
            n == selected@.len(),
            count == hidden_count(selected@.take(i as int), visible_ids@),
            count <= i,
    {
        assert(selected@.take(i + 1).drop_last() =~= selected@.take(i as int));
        if !id_listed(visible_ids, selected[i]) {
            count = count + 1;
        }
    }
    assert(selected@.take(n as int) =~= selected@);
    count
}

/// The line under the library's controls: how many assets are shown of how
/// many, and how many selected ones the view hides.
pub open spec fn summary_text(shown: nat, total: nat, hidden_selected: nat) -> Seq<char> {
    if hidden_selected > 0 {
        decimal(shown) + " of "@ + decimal(total) + " assets · "@ + decimal(hidden_selected)
            + " selected hidden"@
    } else if shown != total {
        decimal(shown) + " of "@ + decimal(total) + " assets"@
    } else if total == 1 {
        "1 asset"@
    } else {
        decimal(total) + " assets"@
    }
}

/// The line that sums up the library view.
pub fn asset_library_summary(shown: usize, total: usize, hidden_selected: usize) -> (r: String)
    ensures
        r@ == summary_text(shown as nat, total as nat, hidden_selected as nat),
{
    proof {
        reveal_strlit(" of ");
        reveal_strlit(" assets · ");
        reveal_strlit(" selected hidden");
        reveal_strlit(" assets");
        reveal_strlit("1 asset");
    }
    if hidden_selected > 0 {
        decimal_string(shown as u64).concat(" of ").concat(decimal_string(total as u64).as_str()).concat(
            " assets · ",
        ).concat(decimal_string(hidden_selected as u64).as_str()).concat(" selected hidden")
    } else if shown != total {
        decimal_string(shown as u64).concat(" of ").concat(decimal_string(total as u64).as_str()).concat(
            " assets",
        )
    } else if total == 1 {
        String::from_str("1 asset")
    } else {
        decimal_string(total as u64).concat(" assets")
    }
}

} // verus!
