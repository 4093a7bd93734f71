//! The checks a change to a generative asset's configuration passes before
//! it is stored: the asset must exist and be generative, a chosen provider
//! must exist, fit the asset and be in the project's scope, every input
//! binding must refer to things the project has, and an active version
//! must be one of the configuration's versions.

use vstd::prelude::*;
use crate::model::{Asset, ProviderEntry, kind_media, same_provider};
use crate::lab::{provider_with, find_provider};
use crate::audio::{asset_with, find_asset};
use crate::editor::{
    ProjectRefs,
    InputRefError,
    config_of,
    find_config,
    first_binding_problem,
    error_parts,
    error_message,
    validate_generative_input_refs,
    has_version_named,
    id_listed,
};
use crate::lab_model::{GenerativeConfig, InputValue, version_names};
use crate::ids::ProjectProviderScope;

verus! {

/// Whether a project's provider scope lets it use provider `id`.
pub open spec fn scope_allows(scope: ProjectProviderScope, id: u128) -> bool {
    match scope {
        ProjectProviderScope::All => true,
        ProjectProviderScope::Selected { provider_ids } => provider_ids@.contains(id),
    }
}

/// Whether a project's provider scope lets it use provider `provider_id`:
/// every provider when the scope is all, else the listed ones.
pub fn provider_in_scope(scope: &ProjectProviderScope, provider_id: u128) -> (r: bool)
    ensures
        r == scope_allows(*scope, provider_id),
{
    match scope {
        ProjectProviderScope::All => true,
        ProjectProviderScope::Selected { provider_ids } => id_listed(provider_ids, provider_id),
    }
}

/// The providers a project may use, in their order.
pub open spec fn scoped_providers(providers: Seq<ProviderEntry>, scope: ProjectProviderScope) -> Seq<
    ProviderEntry,
>
    decreases providers.len(),
{
    if providers.len() == 0 {
        seq![]
    } else {
        let rest = scoped_providers(providers.drop_last(), scope);
        if scope_allows(scope, providers.last().id) {
            rest.push(providers.last())
        } else {
            rest
        }
    }
}

/// Copies of the providers the project's scope lets it use, in order.
pub fn project_scoped_provider_entries(providers: &Vec<ProviderEntry>, scope: &ProjectProviderScope) -> (r:
    Vec<ProviderEntry>)
    ensures
        r@.len() == scoped_providers(providers@, *scope).len(),
        forall|k: int|
            0 <= k < r@.len() ==> same_provider(#[trigger] r@[k], scoped_providers(providers@, *scope)[k]),
{
    let mut out: Vec<ProviderEntry> = Vec::new();
    let n = providers.len();
    for i in 0..n
        invariant
            n == providers@.len(),
            out@.len() == scoped_providers(providers@.take(i as int), *scope).len(),
            forall|k: int|
                0 <= k < out@.len() ==> same_provider(
                    #[trigger] out@[k],
                    scoped_providers(providers@.take(i as int), *scope)[k],
                ),
    {
        assert(providers@.take(i + 1).drop_last() =~= providers@.take(i as int));
        if provider_in_scope(scope, providers[i].id) {
            out.push(providers[i].duplicate());
        }
    }
    assert(providers@.take(n as int) =~= providers@);
    out
}

/// Why a configuration change was refused.
#[derive(Clone, Debug)]
pub enum ConfigRefusal {
    AssetNotFound,
    /// The asset has no generative configuration.
    GenerativeAssetNotFound,
    ProviderNotFound,
    ProviderOutsideScope,
    /// The provider produces another media type than the asset holds.
    ProviderMismatch,
    /// An input binding refers to something the project does not have.
    InputRef(InputRefError),
    /// The active version named is not among the configuration's versions.
    VersionNotFound,
}

/// The kinds of refusal, without the details of an input reference error.
#[derive(Clone, Copy, Debug, PartialEq, Eq, Structural)]
pub enum RefusalKind {
    AssetNotFound,
    GenerativeAssetNotFound,
    ProviderNotFound,
    ProviderOutsideScope,
    ProviderMismatch,
    InputRef,
    VersionNotFound,
}

/// A refusal as values: its kind, and the parts of an input reference error.
pub open spec fn refusal_view(r: ConfigRefusal) -> (RefusalKind, Option<(int, u128, u128, Seq<char>, Seq<char>)>) {
    match r {
        ConfigRefusal::AssetNotFound => (RefusalKind::AssetNotFound, None),
        ConfigRefusal::GenerativeAssetNotFound => (RefusalKind::GenerativeAssetNotFound, None),
        ConfigRefusal::ProviderNotFound => (RefusalKind::ProviderNotFound, None),
        ConfigRefusal::ProviderOutsideScope => (RefusalKind::ProviderOutsideScope, None),
        ConfigRefusal::ProviderMismatch => (RefusalKind::ProviderMismatch, None),
        ConfigRefusal::InputRef(e) => (RefusalKind::InputRef, Some(error_parts(e))),
        ConfigRefusal::VersionNotFound => (RefusalKind::VersionNotFound, None),
    }
}

/// The message of a refusal.
pub open spec fn refusal_message(r: ConfigRefusal) -> Seq<char> {
    match r {
        ConfigRefusal::AssetNotFound => "Asset not found."@,
        ConfigRefusal::GenerativeAssetNotFound => "Generative asset not found."@,
        ConfigRefusal::ProviderNotFound => "Provider not found."@,
        ConfigRefusal::ProviderOutsideScope => "Provider is outside this project's provider scope."@,
        ConfigRefusal::ProviderMismatch => "Provider output type does not match this asset."@,
        ConfigRefusal::InputRef(e) => error_message(e),
        ConfigRefusal::VersionNotFound => "Generation version not found."@,
    }
}

/// The HTTP status of a refusal: 409 for a provider that exists but may not
/// be used, 404 for anything missing.
pub open spec fn refusal_status(r: ConfigRefusal) -> u16 {
    match r {
        ConfigRefusal::ProviderOutsideScope | ConfigRefusal::ProviderMismatch => 409,
        _ => 404,
    }
}

impl ConfigRefusal {
    /// The HTTP status the refusal is answered with.
    pub fn http_status(&self) -> (r: u16)
        ensures
            r == refusal_status(*self),
    {
        match self {
            ConfigRefusal::ProviderOutsideScope | ConfigRefusal::ProviderMismatch => 409,
            _ => 404,
        }
    }

    /// The message sent back with the refusal.
    pub fn message(&self) -> (r: String)
        ensures
            r@ == refusal_message(*self),
    {
        match self {
            ConfigRefusal::AssetNotFound => {
                proof {
                    reveal_strlit("Asset not found.");
                }
                String::from_str("Asset not found.")
            },
            ConfigRefusal::GenerativeAssetNotFound => {
                proof {
                    reveal_strlit("Generative asset not found.");
                }
                String::from_str("Generative asset not found.")
            },
            ConfigRefusal::ProviderNotFound => {
                proof {
                    reveal_strlit("Provider not found.");
                }
                String::from_str("Provider not found.")
            },
            ConfigRefusal::ProviderOutsideScope => {
                proof {
                    reveal_strlit("Provider is outside this project's provider scope.");
                }
                String::from_str("Provider is outside this project's provider scope.")
            },
            ConfigRefusal::ProviderMismatch => {
                proof {
                    reveal_strlit("Provider output type does not match this asset.");
                }
                String::from_str("Provider output type does not match this asset.")
            },
            ConfigRefusal::InputRef(e) => e.message(),
            ConfigRefusal::VersionNotFound => {
                proof {
                    reveal_strlit("Generation version not found.");
                }
                String::from_str("Generation version not found.")
            },
        }
    }
}

/// What stops provider `id` from generating `asset`: it must exist, produce
/// the asset's media type and be in the project's scope, checked in that
/// order.
pub open spec fn provider_problem(
    asset: Asset,
    providers: Seq<ProviderEntry>,
    scope: ProjectProviderScope,
    id: u128,
) -> Option<RefusalKind> {
    match provider_with(providers, id) {
        None => Some(RefusalKind::ProviderNotFound),
        Some(p) => if kind_media(asset.kind) != p.output_type {
            Some(RefusalKind::ProviderMismatch)
        } else if !scope_allows(scope, id) {
            Some(RefusalKind::ProviderOutsideScope)
        } else {
            None
        },
    }
}

/// Checks that provider `provider_id` may generate `asset` in this project.
pub fn check_provider_choice(
    asset: &Asset,
    providers: &Vec<ProviderEntry>,
    scope: &ProjectProviderScope,
    provider_id: u128,
) -> (r: Result<(), ConfigRefusal>)
    ensures
        match provider_problem(*asset, providers@, *scope, provider_id) {
            None => r is Ok,
            Some(k) => r matches Err(e) && refusal_view(e) == (k, None::<(int, u128, u128, Seq<char>, Seq<char>)>),
        },
{
    match find_provider(providers, provider_id) {
        None => Err(ConfigRefusal::ProviderNotFound),
        Some(p) => {
            if !crate::library::provider_matches_asset_output(asset, p) {
                Err(ConfigRefusal::ProviderMismatch)
            } else if !provider_in_scope(scope, provider_id) {
                Err(ConfigRefusal::ProviderOutsideScope)
            } else {
                Ok(())
            }
        },
    }
}

/// A requested change to a generative configuration, as far as it is
/// checked: each part that is given replaces or extends the stored one.
#[derive(Clone, Debug)]
pub struct GenerativeConfigPatch {
    pub provider_id: Option<u128>,
    pub inputs: Option<Vec<(String, InputValue)>>,
    pub reference_slots: Option<Vec<(String, InputValue)>>,
    pub active_version: Option<String>,
}

/// The first problem among optional bindings.
pub open spec fn optional_binding_problem(p: ProjectRefs, values: Option<Vec<(String, InputValue)>>) -> Option<
    (int, u128, u128, Seq<char>, Seq<char>),
> {
    match values {
        Some(v) => first_binding_problem(p, v@),
        None => None,
    }
}

/// What is wrong with the parts of a change that do not depend on where the
/// configuration is stored: the provider, the bindings, then the active
/// version, which must be among `versions`.
pub open spec fn change_problem(
    refs: ProjectRefs,
    asset: Asset,
    providers: Seq<ProviderEntry>,
    scope: ProjectProviderScope,
    provider_id: Option<u128>,
    inputs: Option<Vec<(String, InputValue)>>,
    reference_slots: Option<Vec<(String, InputValue)>>,
    active_version: Option<String>,
    versions: Seq<Seq<char>>,
) -> Option<(RefusalKind, Option<(int, u128, u128, Seq<char>, Seq<char>)>)> {
    let provider = match provider_id {
        Some(id) => provider_problem(asset, providers, scope, id),
        None => None,
    };
    if provider is Some {
        Some((provider->0, None))
    } else if optional_binding_problem(refs, inputs) is Some {
        Some((RefusalKind::InputRef, optional_binding_problem(refs, inputs)))
    } else if optional_binding_problem(refs, reference_slots) is Some {
        Some((RefusalKind::InputRef, optional_binding_problem(refs, reference_slots)))
    } else {
        match active_version {
            Some(v) => if versions.contains(v@) {
                None
            } else {
                Some((RefusalKind::VersionNotFound, None))
            },
            None => None,
        }
    }
}

/// Checks optional bindings.
fn check_optional_bindings(refs: &ProjectRefs, values: &Option<Vec<(String, InputValue)>>) -> (r:
    Result<(), ConfigRefusal>)
    ensures
        match optional_binding_problem(*refs, *values) {
            None => r is Ok,
            Some(e) => r matches Err(err) && refusal_view(err) == (RefusalKind::InputRef, Some(e)),
        },
{
    match values {
        Some(v) => match validate_generative_input_refs(refs, v) {
            Ok(()) => Ok(()),
            Err(e) => Err(ConfigRefusal::InputRef(e)),
        },
        None => Ok(()),
    }
}

/// What is wrong with a change to the configuration of asset `asset_id`:
/// the asset must exist and have a configuration, then the change's parts
/// are checked against that configuration's versions.
pub open spec fn patch_problem(
    refs: ProjectRefs,
    assets: Seq<Asset>,
    providers: Seq<ProviderEntry>,
    scope: ProjectProviderScope,
    asset_id: u128,
    patch: GenerativeConfigPatch,
) -> Option<(RefusalKind, Option<(int, u128, u128, Seq<char>, Seq<char>)>)> {
    match asset_with(assets, asset_id) {
        None => Some((RefusalKind::AssetNotFound, None)),
        Some(asset) => match config_of(refs.configs@, asset_id) {
            None => Some((RefusalKind::GenerativeAssetNotFound, None)),
            Some(config) => change_problem(
                refs,
                asset,
                providers,
                scope,
                patch.provider_id,
                patch.inputs,
                patch.reference_slots,
                patch.active_version,
                version_names(config.versions@),
            ),
        },
    }
}

/// Checks a change to the stored configuration of asset `asset_id`, and
/// reports the first reason to refuse it.
pub fn check_config_patch(
    refs: &ProjectRefs,
    assets: &Vec<Asset>,
    providers: &Vec<ProviderEntry>,
    scope: &ProjectProviderScope,
    asset_id: u128,
    patch: &GenerativeConfigPatch,
) -> (r: Result<(), ConfigRefusal>)
    ensures
        match patch_problem(*refs, assets@, providers@, *scope, asset_id, *patch) {
            None => r is Ok,
            Some(v) => r matches Err(e) && refusal_view(e) == v,
        },
{
    let asset = match find_asset(assets, asset_id) {
        Some(a) => a,
        None => return Err(ConfigRefusal::AssetNotFound),
    };
    let config = match find_config(&refs.configs, asset_id) {
        Some(c) => c,
        None => return Err(ConfigRefusal::GenerativeAssetNotFound),
    };
    if let Some(id) = patch.provider_id {
        check_provider_choice(asset, providers, scope, id)?;
    }
    check_optional_bindings(refs, &patch.inputs)?;
    check_optional_bindings(refs, &patch.reference_slots)?;
    if let Some(v) = &patch.active_version {
        if !has_version_named(config, v) {
            return Err(ConfigRefusal::VersionNotFound);
        }
    }
    Ok(())
}

/// What is wrong with replacing the configuration of asset `asset_id` by
/// `config`: the asset must exist, then the new configuration's provider,
/// bindings and active version are checked against its own versions.
pub open spec fn replacement_problem(
    refs: ProjectRefs,
    assets: Seq<Asset>,
    providers: Seq<ProviderEntry>,
    scope: ProjectProviderScope,
    asset_id: u128,
    config: GenerativeConfig,
) -> Option<(RefusalKind, Option<(int, u128, u128, Seq<char>, Seq<char>)>)> {
    match asset_with(assets, asset_id) {
        None => Some((RefusalKind::AssetNotFound, None)),
        Some(asset) => change_problem(
            refs,
            asset,
            providers,
            scope,
            config.provider_id,
            Some(config.inputs),
            Some(config.reference_slots),
            config.active_version,
            version_names(config.versions@),
        ),
    }
}

/// Checks a replacement of the configuration of asset `asset_id`, and
/// reports the first reason to refuse it.
pub fn check_config_replacement(
    refs: &ProjectRefs,
    assets: &Vec<Asset>,
    providers: &Vec<ProviderEntry>,
    scope: &ProjectProviderScope,
    asset_id: u128,
    config: &GenerativeConfig,
) -> (r: Result<(), ConfigRefusal>)
    ensures
        match replacement_problem(*refs, assets@, providers@, *scope, asset_id, *config) {
            None => r is Ok,
            Some(v) => r matches Err(e) && refusal_view(e) == v,
        },
{
    let asset = match find_asset(assets, asset_id) {
        Some(a) => a,
        None => return Err(ConfigRefusal::AssetNotFound),
    };
    if let Some(id) = config.provider_id {
        check_provider_choice(asset, providers, scope, id)?;
    }
    if let Err(e) = validate_generative_input_refs(refs, &config.inputs) {
        return Err(ConfigRefusal::InputRef(e));
    }
    if let Err(e) = validate_generative_input_refs(refs, &config.reference_slots) {
        return Err(ConfigRefusal::InputRef(e));
    }
    if let Some(v) = &config.active_version {
        if !has_version_named(config, v) {
            return Err(ConfigRefusal::VersionNotFound);
        }
    }
    Ok(())
}

} // verus!
