//! Choosing and duplicating a generative asset's versions, as far as the
//! configuration is concerned; the files are copied and the configuration
//! saved around these by the application.

use vstd::prelude::*;
use crate::lab::{has_version, activated, version_position, activate_record};
use crate::lab_model::{GenerativeConfig, GenerationRecord, version_names, duplicate_bindings};

verus! {

/// The message for a version that a configuration does not have.
pub open spec fn version_not_found(version: Seq<char>) -> Seq<char> {
    "Version "@ + version + " was not found."@
}

fn version_not_found_message(version: &str) -> (r: String)
    ensures
        r@ == version_not_found(version@),
{
    proof {
        reveal_strlit("Version ");
        reveal_strlit(" was not found.");
    }
    String::from_str("Version ").concat(version).concat(" was not found.")
}

/// Makes version `version` active: the first record of that name lends the
/// configuration its provider and inputs, and its lab node, if any, becomes
/// selected with the version as output. An error, with nothing changed, when
/// the configuration has no such version.
pub fn set_generative_active_version(config: &mut GenerativeConfig, version: &str) -> (r: Result<
    (),
    String,
>)
    ensures
        r is Ok <==> has_version(*old(config), version@),
        r is Ok ==> exists|i: int|
            0 <= i < old(config).versions@.len() && old(config).versions@[i].version@ == version@
                && (forall|j: int| 0 <= j < i ==> old(config).versions@[j].version@ != version@)
                && activated(*old(config), *final(config), old(config).versions@[i], version@),
        r is Err ==> *final(config) == *old(config) && r->Err_0@ == version_not_found(version@),
{
    if crate::lab::apply_active_generation_version_to_config(config, version) {
        Ok(())
    } else {
        Err(version_not_found_message(version))
    }
}

/// The record that duplicates `source` under the name `new_version`, made at
/// `timestamp_ms`: same provider, input snapshot and lab node.
pub open spec fn is_duplicate_record(
    r: GenerationRecord,
    source: GenerationRecord,
    new_version: Seq<char>,
    timestamp_ms: i64,
) -> bool {
    &&& r.version@ == new_version
    &&& r.timestamp_ms == timestamp_ms
    &&& r.provider_id == source.provider_id
    &&& r.inputs_snapshot@ == source.inputs_snapshot@
    &&& r.lab_node_id == source.lab_node_id
}

/// Duplicates version `version` as a new version `new_version`, made at
/// `timestamp_ms`, appended to the history and made active. An error, with
/// nothing changed, when the configuration has no version `version`.
pub fn duplicate_generative_version(
    config: &mut GenerativeConfig,
    version: &str,
    new_version: &str,
    timestamp_ms: i64,
) -> (r: Result<String, String>)
    ensures
        r is Ok <==> has_version(*old(config), version@),
        r matches Ok(v) ==> v@ == new_version@,
        r is Ok ==> exists|i: int|
            0 <= i < old(config).versions@.len() && old(config).versions@[i].version@ == version@
                && (forall|j: int| 0 <= j < i ==> old(config).versions@[j].version@ != version@)
                && final(config).versions@.len() == old(config).versions@.len() + 1
                && final(config).versions@.take(old(config).versions@.len() as int)
                    == old(config).versions@
                && is_duplicate_record(
                    final(config).versions@.last(),
                    old(config).versions@[i],
                    new_version@,
                    timestamp_ms,
                )
                && activated(
                    GenerativeConfig {
                        versions: final(config).versions,
                        ..*old(config)
                    },
                    *final(config),
                    final(config).versions@.last(),
                    new_version@,
                ),
        r is Err ==> *final(config) == *old(config) && r->Err_0@ == version_not_found(version@),
{
    let index = match version_position(&config.versions, version) {
        Some(i) => i,
        None => {
            return Err(version_not_found_message(version));
        },
    };
    assert(version_names(old(config).versions@)[index as int] == version@);
    let record = GenerationRecord {
        version: String::from_str(new_version),
        timestamp_ms,
        provider_id: config.versions[index].provider_id,
        inputs_snapshot: duplicate_bindings(&config.versions[index].inputs_snapshot),
        lab_node_id: config.versions[index].lab_node_id,
    };
    let copy = record.duplicate();
    config.versions.push(record);
    let ghost pushed = *config;
    assert(pushed.versions@.take(old(config).versions@.len() as int) =~= old(config).versions@);
    activate_record(config, &copy, new_version);
    Ok(String::from_str(new_version))
}

} // verus!
