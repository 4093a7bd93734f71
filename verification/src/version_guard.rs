//! Deleting a generated version within a project: the asset must exist and
//! be generative, the version must exist, and no other generative asset may
//! still refer to it.

use vstd::prelude::*;
use crate::model::{Asset, kind_is_generative};
use crate::audio::{asset_with, find_asset};
use crate::assets::generative_folder;
use crate::editor::config_of;
use crate::lab::{config_references, references_version, generative_config_references_version, has_version, version_position};
use crate::lab_model::{GenerativeConfig, InputValue, version_names};
use crate::natural::lex_sign_exec;
use crate::natural_spec::lex_sign;
use crate::sorting::{sort_by, lemma_insert_by_at, lemma_sort_by_step};
use crate::text::chars_of;
use crate::version_delete::{delete_generative_version, version_deleted};
use crate::uuid_text::{uuid_string, uuid_text};

verus! {

/// The other generative assets whose configuration refers to version
/// `version` of asset `asset_id`, in project order.
pub open spec fn dependent_ids(configs: Seq<(u128, GenerativeConfig)>, asset_id: u128, version: Seq<char>) -> Seq<
    u128,
>
    decreases configs.len(),
{
    if configs.len() == 0 {
        seq![]
    } else {
        let rest = dependent_ids(configs.drop_last(), asset_id, version);
        let c = configs.last();
        if c.0 != asset_id && config_references(c.1, asset_id, version) {
            rest.push(c.0)
        } else {
            rest
        }
    }
}

/// How a dependent asset is named in a message: "name (id)", or the
/// identifier alone when no asset has it.
pub open spec fn dependent_label(assets: Seq<Asset>, id: u128) -> Seq<char> {
    match asset_with(assets, id) {
        Some(a) => a.name@ + " ("@ + uuid_text(id) + ")"@,
        None => uuid_text(id),
    }
}

/// Whether label `a` must come after label `b`: text order by code point.
pub open spec fn label_after(a: Seq<char>, b: Seq<char>) -> bool {
    lex_sign(a, b) > 0
}

/// The labels of the dependents, in text order.
pub open spec fn dependent_labels(
    configs: Seq<(u128, GenerativeConfig)>,
    assets: Seq<Asset>,
    asset_id: u128,
    version: Seq<char>,
) -> Seq<Seq<char>> {
    sort_by(
        dependent_ids(configs, asset_id, version).map_values(|id: u128| dependent_label(assets, id)),
        |a: Seq<char>, b: Seq<char>| label_after(a, b),
    )
}

/// The views of strings.
pub open spec fn string_views(v: Seq<String>) -> Seq<Seq<char>> {
    v.map_values(|s: String| s@)
}

fn dependent_ids_exec(configs: &Vec<(u128, GenerativeConfig)>, asset_id: u128, version: &str) -> (r: Vec<
    u128,
>)
    ensures
        r@ == dependent_ids(configs@, asset_id, version@),
{
    let mut out: Vec<u128> = Vec::new();
    let n = configs.len();
    for i in 0..n
        invariant
            n == configs@.len(),
            out@ == dependent_ids(configs@.take(i as int), asset_id, version@),
    {
        assert(configs@.take(i + 1).drop_last() =~= configs@.take(i as int));
        if configs[i].0 != asset_id && generative_config_references_version(&configs[i].1, asset_id, version) {
            out.push(configs[i].0);
        }
    }
    assert(configs@.take(n as int) =~= configs@);
    out
}

fn dependent_label_exec(assets: &Vec<Asset>, id: u128) -> (r: String)
    ensures
        r@ == dependent_label(assets@, id),
{
    match find_asset(assets, id) {
        Some(a) => {
            proof {
                reveal_strlit(" (");
                reveal_strlit(")");
            }
            a.name.clone().concat(" (").concat(uuid_string(id).as_str()).concat(")")
        },
        None => uuid_string(id),
    }
}

/// The labels of the other generative assets that refer to version
/// `version` of asset `asset_id`, in text order.
pub fn generation_version_dependents(
    configs: &Vec<(u128, GenerativeConfig)>,
    assets: &Vec<Asset>,
    asset_id: u128,
    version: &str,
) -> (r: Vec<String>)
    ensures
        string_views(r@) == dependent_labels(configs@, assets@, asset_id, version@),
{
    let ids = dependent_ids_exec(configs, asset_id, version);
    let ghost input = ids@.map_values(|id: u128| dependent_label(assets@, id));
    let ghost after = |a: Seq<char>, b: Seq<char>| label_after(a, b);
    let mut out: Vec<String> = Vec::new();
    let n = ids.len();
    for i in 0..n
        invariant
            n == ids@.len(),
            input == ids@.map_values(|id: u128| dependent_label(assets@, id)),
            after == (|a: Seq<char>, b: Seq<char>| label_after(a, b)),
            string_views(out@) == sort_by(input.take(i as int), after),
    {
        let x = dependent_label_exec(assets, ids[i]);
        let xc = chars_of(x.as_str());
        let ghost before = string_views(out@);
        let mut j: usize = out.len();
        while j > 0 && lex_sign_exec(&chars_of(out[j - 1].as_str()), &xc) > 0
            invariant
                j <= out@.len(),
                before == string_views(out@),
                xc@ == x@,
                after == (|a: Seq<char>, b: Seq<char>| label_after(a, b)),
                forall|k: int| j <= k < out@.len() ==> label_after(#[trigger] before[k], x@),
            decreases j,
        {
            j = j - 1;
        }
        proof {
            assert(input[i as int] == x@);
            lemma_insert_by_at(before, x@, after, j as int);
            lemma_sort_by_step(input, i as int, after);
        }
        out.insert(j, x);
        assert(string_views(out@) =~= before.insert(j as int, x@));
    }
    assert(input.take(n as int) =~= input);
    out
}

/// Labels joined by ", ".
pub open spec fn joined_labels(labels: Seq<Seq<char>>) -> Seq<char>
    decreases labels.len(),
{
    if labels.len() == 0 {
        seq![]
    } else if labels.len() == 1 {
        labels[0]
    } else {
        joined_labels(labels.drop_last()) + ", "@ + labels.last()
    }
}

fn join_labels(labels: &Vec<String>) -> (r: String)
    ensures
        r@ == joined_labels(string_views(labels@)),
{
    let mut out = String::new();
    let n = labels.len();
    proof {
        reveal_strlit(", ");
    }
    for i in 0..n
        invariant
            n == labels@.len(),
            out@ == joined_labels(string_views(labels@.take(i as int))),
    {
        assert(string_views(labels@.take(i + 1)).drop_last() =~= string_views(labels@.take(i as int)));
        if i == 0 {
            out = labels[i].clone();
        } else {
            out = out.concat(", ").concat(labels[i].as_str());
        }
    }
    assert(labels@.take(n as int) =~= labels@);
    out
}

/// Why a version cannot be deleted, as its message: the asset must exist and
/// be generative, have a configuration that holds the version, and no other
/// generative asset may refer to the version.
pub open spec fn deletion_refusal(
    configs: Seq<(u128, GenerativeConfig)>,
    assets: Seq<Asset>,
    asset_id: u128,
    version: Seq<char>,
) -> Option<Seq<char>> {
    match asset_with(assets, asset_id) {
        None => Some("Asset not found."@),
        Some(a) => if !kind_is_generative(a.kind) {
            Some("Asset has no generation folder."@)
        } else {
            match config_of(configs, asset_id) {
                None => Some("Generation config was not found."@),
                Some(c) => if !has_version(c, version) {
                    Some("Version "@ + version + " was not found."@)
                } else if dependent_ids(configs, asset_id, version).len() > 0 {
                    Some(
                        "Version "@ + version + " is referenced by other generative assets: "@
                            + joined_labels(dependent_labels(configs, assets, asset_id, version)) + "."@,
                    )
                } else {
                    None
                },
            }
        },
    }
}

/// Checks that version `version` of asset `asset_id` may be deleted, and
/// gives the reason when it may not.
pub fn check_version_deletable(
    configs: &Vec<(u128, GenerativeConfig)>,
    assets: &Vec<Asset>,
    asset_id: u128,
    version: &str,
) -> (r: Result<(), String>)
    ensures
        match deletion_refusal(configs@, assets@, asset_id, version@) {
            None => r is Ok,
            Some(m) => r matches Err(e) && e@ == m,
        },
{
    let asset = match find_asset(assets, asset_id) {
        None => {
            proof {
                reveal_strlit("Asset not found.");
            }
            return Err(String::from_str("Asset not found."));
        },
        Some(a) => a,
    };
    if generative_folder(asset).is_none() {
        proof {
            reveal_strlit("Asset has no generation folder.");
        }
        return Err(String::from_str("Asset has no generation folder."));
    }
    let config = match crate::editor::find_config(configs, asset_id) {
        None => {
            proof {
                reveal_strlit("Generation config was not found.");
            }
            return Err(String::from_str("Generation config was not found."));
        },
        Some(c) => c,
    };
    match version_position(&config.versions, version) {
        None => {
            proof {
                reveal_strlit("Version ");
                reveal_strlit(" was not found.");
            }
            return Err(String::from_str("Version ").concat(version).concat(" was not found."));
        },
        Some(i) => {
            assert(version_names(config.versions@)[i as int] == version@);
        },
    }
    let dependents = generation_version_dependents(configs, assets, asset_id, version);
    proof {
        crate::sorting::lemma_sort_by_multiset(
            dependent_ids(configs@, asset_id, version@).map_values(|id: u128| dependent_label(assets@, id)),
            |a: Seq<char>, b: Seq<char>| label_after(a, b),
        );
    }
    if dependents.len() > 0 {
        let joined = join_labels(&dependents);
        proof {
            reveal_strlit("Version ");
            reveal_strlit(" is referenced by other generative assets: ");
            reveal_strlit(".");
        }
        return Err(
            String::from_str("Version ").concat(version).concat(
                " is referenced by other generative assets: ",
            ).concat(joined.as_str()).concat("."),
        );
    }
    Ok(())
}

/// The position of the configuration of asset `id`.
pub open spec fn config_position(configs: Seq<(u128, GenerativeConfig)>, id: u128) -> Option<int>
    decreases configs.len(),
{
    if configs.len() == 0 {
        None
    } else if configs[0].0 == id {
        Some(0)
    } else {
        match config_position(configs.drop_first(), id) {
            Some(p) => Some(p + 1),
            None => None,
        }
    }
}

proof fn lemma_config_position(configs: Seq<(u128, GenerativeConfig)>, id: u128)
    ensures
        match config_position(configs, id) {
            Some(p) => 0 <= p < configs.len() && configs[p].0 == id && config_of(configs, id) == Some(
                configs[p].1,
            ),
            None => config_of(configs, id) is None,
        },
    decreases configs.len(),
{
    if configs.len() > 0 && configs[0].0 != id {
        lemma_config_position(configs.drop_first(), id);
    }
}

fn find_config_position(configs: &Vec<(u128, GenerativeConfig)>, id: u128) -> (r: Option<usize>)
    ensures
        match r {
            Some(i) => config_position(configs@, id) == Some(i as int),
            None => config_position(configs@, id) is None,
        },
{
    let mut i: usize = 0;
    assert(configs@.skip(0) =~= configs@);
    while i < configs.len()
        invariant
            i <= configs.len(),
            match config_position(configs@, id) {
                Some(p) => match config_position(configs@.skip(i as int), id) {
                    Some(q) => p == q + i,
                    None => false,
                },
                None => config_position(configs@.skip(i as int), id) is None,
            },
        decreases configs.len() - i,
    {
        assert(configs@.skip(i as int).drop_first() =~= configs@.skip(i + 1));
        if configs[i].0 == id {
            return Some(i);
        }
        i = i + 1;
    }
    None
}

/// Deletes version `version` of asset `asset_id` from the project's
/// configurations. The deletion is checked first, as `check_version_deletable`
/// does; the caller removes the version's files only when that check passes
/// and hands over the outcome, `files_removed`. When the check fails or the
/// files could not be removed nothing changes and the reason is returned;
/// otherwise the asset's configuration loses the version and every trace of
/// it, and every other configuration stays as it was.
pub fn delete_generative_version_in_project(
    configs: &mut Vec<(u128, GenerativeConfig)>,
    assets: &Vec<Asset>,
    asset_id: u128,
    version: &str,
    files_removed: Result<(), String>,
) -> (r: Result<(), String>)
    ensures
        match deletion_refusal(old(configs)@, assets@, asset_id, version@) {
            Some(m) => r matches Err(e) && e@ == m && final(configs)@ == old(configs)@,
            None => match files_removed {
                Err(f) => r matches Err(e) && e@ == "Failed to delete version files: "@ + f@
                    && final(configs)@ == old(configs)@,
                Ok(()) => r is Ok && match config_position(old(configs)@, asset_id) {
                    Some(k) => {
                        &&& final(configs)@.len() == old(configs)@.len()
                        &&& final(configs)@[k].0 == asset_id
                        &&& version_deleted(old(configs)@[k].1, final(configs)@[k].1, asset_id, version@)
                        &&& forall|j: int|
                            0 <= j < old(configs)@.len() && j != k ==> #[trigger] final(configs)@[j]
                                == old(configs)@[j]
                    },
                    None => false,
                },
            },
        },
{
    check_version_deletable(configs, assets, asset_id, version)?;
    if let Err(f) = files_removed {
        proof {
            reveal_strlit("Failed to delete version files: ");
        }
        return Err(String::from_str("Failed to delete version files: ").concat(f.as_str()));
    }
    proof {
        lemma_config_position(configs@, asset_id);
    }
    let k = match find_config_position(configs, asset_id) {
        Some(k) => k,
        None => {
            return Err(String::from_str("Generation config was not found."));
        },
    };
    let ghost before = configs@;
    let (id, mut config) = configs.remove(k);
    let result = delete_generative_version(&mut config, asset_id, version);
    configs.insert(k, (id, config));
    assert forall|j: int| 0 <= j < before.len() && j != k implies #[trigger] configs@[j] == before[j] by {
        if j < k {
            assert(configs@[j] == before[j]);
        } else {
            assert(configs@[j] == before[j]);
        }
    }
    match result {
        Ok(()) => Ok(()),
        Err(e) => Err(e),
    }
}

/// An entry of `configs` of another asset that refers to the version is
/// among the dependents.
proof fn lemma_dependent_listed(configs: Seq<(u128, GenerativeConfig)>, asset_id: u128, version: Seq<char>, k: int)
    requires
        0 <= k < configs.len(),
        configs[k].0 != asset_id,
        config_references(configs[k].1, asset_id, version),
    ensures
        dependent_ids(configs, asset_id, version).contains(configs[k].0),
    decreases configs.len(),
{
    let d = dependent_ids(configs, asset_id, version);
    if k == configs.len() - 1 {
        assert(d[d.len() - 1] == configs[k].0);
    } else {
        lemma_dependent_listed(configs.drop_last(), asset_id, version, k);
        let rest = dependent_ids(configs.drop_last(), asset_id, version);
        let t = choose|t: int| 0 <= t < rest.len() && rest[t] == configs[k].0;
        assert(d[t] == configs[k].0);
    }
}

/// A version stays in use while another asset's configuration binds it in a
/// reference slot: that configuration refers to it, the other asset is among
/// its dependents, and deleting the version is refused.
pub proof fn law_reference_slot_keeps_version_in_use(
    configs: Seq<(u128, GenerativeConfig)>,
    assets: Seq<Asset>,
    asset_id: u128,
    version: Seq<char>,
    k: int,
    slot: int,
)
    requires
        0 <= k < configs.len(),
        configs[k].0 != asset_id,
        0 <= slot < configs[k].1.reference_slots@.len(),
        configs[k].1.reference_slots@[slot].1 matches InputValue::GenerationRef { asset_id: a, version: v, .. }
            && a == asset_id && v@ == version,
    ensures
        config_references(configs[k].1, asset_id, version),
        dependent_ids(configs, asset_id, version).contains(configs[k].0),
        deletion_refusal(configs, assets, asset_id, version) is Some,
{
    assert(references_version(configs[k].1.reference_slots@[slot].1, asset_id, version));
    lemma_dependent_listed(configs, asset_id, version, k);
}

/// The same holds of a binding among another asset's inputs.
pub proof fn law_input_keeps_version_in_use(
    configs: Seq<(u128, GenerativeConfig)>,
    assets: Seq<Asset>,
    asset_id: u128,
    version: Seq<char>,
    k: int,
    slot: int,
)
    requires
        0 <= k < configs.len(),
        configs[k].0 != asset_id,
        0 <= slot < configs[k].1.inputs@.len(),
        configs[k].1.inputs@[slot].1 matches InputValue::GenerationRef { asset_id: a, version: v, .. }
            && a == asset_id && v@ == version,
    ensures
        config_references(configs[k].1, asset_id, version),
        dependent_ids(configs, asset_id, version).contains(configs[k].0),
        deletion_refusal(configs, assets, asset_id, version) is Some,
{
    assert(references_version(configs[k].1.inputs@[slot].1, asset_id, version));
    lemma_dependent_listed(configs, asset_id, version, k);
}

} // verus!
