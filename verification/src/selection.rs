//! Which asset an automation command means when it names one loosely.

use vstd::prelude::*;
use crate::model::Asset;

verus! {

/// The identifier of the first asset named `name`.
pub open spec fn asset_named(assets: Seq<Asset>, name: Seq<char>) -> Option<u128>
    decreases assets.len(),
{
    if assets.len() == 0 {
        None
    } else if assets[0].name@ == name {
        Some(assets[0].id)
    } else {
        asset_named(assets.drop_first(), name)
    }
}

/// The asset given by identifier, else by name.
pub open spec fn asset_by_id_or_name(
    assets: Seq<Asset>,
    asset_id: Option<u128>,
    asset_name: Option<Seq<char>>,
) -> Option<u128> {
    match asset_id {
        Some(id) => Some(id),
        None => match asset_name {
            Some(name) => asset_named(assets, name),
            None => None,
        },
    }
}

/// The identifier of the first asset named `name`.
fn find_asset_named(assets: &Vec<Asset>, name: &str) -> (r: Option<u128>)
    ensures
        r == asset_named(assets@, name@),
{
    let target = String::from_str(name);
    let mut i: usize = 0;
    assert(assets@.skip(0) =~= assets@);
    while i < assets.len()
        invariant
            i <= assets.len(),
            target@ == name@,
            asset_named(assets@, name@) == asset_named(assets@.skip(i as int), name@),
        decreases assets.len() - i,
    {
        assert(assets@.skip(i as int).drop_first() =~= assets@.skip(i + 1));
        if assets[i].name == target {
            return Some(assets[i].id);
        }
        i = i + 1;
    }
    None
}

/// The asset a command means: the given identifier, else the first asset
/// with the given name, else the project's first asset.
pub fn resolve_asset(assets: &Vec<Asset>, asset_id: Option<u128>, asset_name: Option<&str>) -> (r:
    Option<u128>)
    ensures
        r == match asset_by_id_or_name(
            assets@,
            asset_id,
            match asset_name {
                Some(n) => Some(n@),
                None => None,
            },
        ) {
            Some(id) => Some(id),
            None => if assets@.len() > 0 {
                Some(assets@[0].id)
            } else {
                None
            },
        },
{
    let by_name = match asset_id {
        Some(id) => Some(id),
        None => match asset_name {
            Some(n) => find_asset_named(assets, n),
            None => None,
        },
    };
    match by_name {
        Some(id) => Some(id),
        None => if assets.len() > 0 {
            Some(assets[0].id)
        } else {
            None
        },
    }
}

/// The asset a command means: the given identifier, else the first asset
/// with the given name, else the first selected asset.
pub fn resolve_asset_or_selected(
    assets: &Vec<Asset>,
    selected_asset_ids: &Vec<u128>,
    asset_id: Option<u128>,
    asset_name: Option<&str>,
) -> (r: Option<u128>)
    ensures
        r == match asset_by_id_or_name(
            assets@,
            asset_id,
            match asset_name {
                Some(n) => Some(n@),
                None => None,
            },
        ) {
            Some(id) => Some(id),
            None => if selected_asset_ids@.len() > 0 {
                Some(selected_asset_ids@[0])
            } else {
                None
            },
        },
{
    let by_name = match asset_id {
        Some(id) => Some(id),
        None => match asset_name {
            Some(n) => find_asset_named(assets, n),
            None => None,
        },
    };
    match by_name {
        Some(id) => Some(id),
        None => if selected_asset_ids.len() > 0 {
            Some(selected_asset_ids[0])
        } else {
            None
        },
    }
}

} // verus!
