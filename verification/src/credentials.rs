//! What the automation state says of provider credentials: for each
//! provider the project may use (or every provider, when asked), whether a
//! key is set, never the key itself.

use vstd::prelude::*;
use crate::config_check::{provider_in_scope, scope_allows};
use crate::ids::ProjectProviderScope;

verus! {

/// The kinds of provider connection.
#[derive(Clone, Copy, Debug, PartialEq, Eq, Structural)]
pub enum ProviderConnectionKind {
    OpenAiImage,
    XaiImage,
    XaiVideo,
    CustomHttp,
    ComfyUi,
}

/// A provider's connection credential.
#[derive(Clone, Debug)]
pub struct ProviderCredential {
    pub provider_id: u128,
    pub kind: ProviderConnectionKind,
    pub api_key: Option<String>,
}

/// What is reported of a provider's credential: whether a key is set, for
/// the connections that take one, and nothing for the others.
#[derive(Clone, Copy, Debug, PartialEq, Eq, Structural)]
pub struct CredentialReport {
    pub provider_id: u128,
    pub api_key_present: Option<bool>,
}

/// Whether connections of this kind take an API key.
pub open spec fn takes_api_key(kind: ProviderConnectionKind) -> bool {
    !(kind is ComfyUi)
}

/// The report of one credential.
pub open spec fn report_of(c: ProviderCredential) -> CredentialReport {
    CredentialReport {
        provider_id: c.provider_id,
        api_key_present: if takes_api_key(c.kind) { Some(c.api_key is Some) } else { None },
    }
}

/// The reports of the credentials of the providers in scope (of all of
/// them with `include_all`), in order.
pub open spec fn reported(creds: Seq<ProviderCredential>, scope: ProjectProviderScope, include_all: bool) -> Seq<
    CredentialReport,
>
    decreases creds.len(),
{
    if creds.len() == 0 {
        seq![]
    } else {
        let rest = reported(creds.drop_last(), scope, include_all);
        if include_all || scope_allows(scope, creds.last().provider_id) {
            rest.push(report_of(creds.last()))
        } else {
            rest
        }
    }
}

/// The report of one credential: whether its key is set, where the
/// connection takes a key.
pub fn credential_report(c: &ProviderCredential) -> (r: CredentialReport)
    ensures
        r == report_of(*c),
{
    let present = match c.kind {
        ProviderConnectionKind::ComfyUi => None,
        _ => Some(c.api_key.is_some()),
    };
    CredentialReport { provider_id: c.provider_id, api_key_present: present }
}

/// The credential reports of the providers the project's scope lets it use
/// (of every provider with `include_all`), in their order.
pub fn redacted_credentials_for_scope(
    creds: &Vec<ProviderCredential>,
    scope: &ProjectProviderScope,
    include_all: bool,
) -> (r: Vec<CredentialReport>)
    ensures
        r@ == reported(creds@, *scope, include_all),
{
    let mut out: Vec<CredentialReport> = Vec::new();
    let n = creds.len();
    for i in 0..n
        invariant
            n == creds@.len(),
            out@ == reported(creds@.take(i as int), *scope, include_all),
    {
        assert(creds@.take(i + 1).drop_last() =~= creds@.take(i as int));
        if include_all || provider_in_scope(scope, creds[i].provider_id) {
            out.push(credential_report(&creds[i]));
        }
    }
    assert(creds@.take(n as int) =~= creds@);
    out
}

} // verus!
