//! What a decoder is charged, and which profiles are sealed.

use vstd::prelude::*;
use crate::text::is_blank;
use super::body::{power_from, power_of_two, DecoderBudgetView, StreamBudget};
use super::profile::{
    connector_error_profile, sealed_connector_semantics, CandidateProtocolProfile,
    ConnectorErrorProfile,
};
use super::materialization::TransportTarget;
use super::provider::resolved_transport_target;

verus! {

proof fn lemma_power(power: nat, n: nat, k: nat)
    requires
        power == power_of_two(k),
        n > 0,
        power < 2 * n,
    ensures
        exists|j: nat| power_from(power, n) == #[trigger] power_of_two(j),
        power_from(power, n) >= n,
        power_from(power, n) < 2 * n,
    decreases 2 * n - power,
{
    lemma_positive(k);
    if power < n {
        assert(power_of_two(k + 1) == 2 * power);
        lemma_power(2 * power, n, k + 1);
    }
}

proof fn lemma_positive(k: nat)
    ensures
        power_of_two(k) > 0,
    decreases k,
{
    if k > 0 {
        lemma_positive((k - 1) as nat);
    }
}

/// A frame is taken while it stays within the ceiling and its charge within the budget. What is
/// already charged covers it, or else the least power of two is charged that covers twice what was
/// read and a little more, and never more than the ceiling would need.
pub proof fn charges_grow_by_powers_of_two(
    account: DecoderBudgetView,
    budget: StreamBudget,
    bytes: usize,
)
    requires
        account.wf(),
        budget.live <= budget.limit,
        account.raw_bytes + bytes > 0,
        2 * account.ceiling + 8 <= usize::MAX,
    ensures
        ({
            let (r, after, left) = account.charged(budget, bytes);
            let needed = 2 * (account.raw_bytes + bytes) + 8;
            let most = 2 * account.ceiling + 8;
            &&& account.raw_bytes + bytes <= account.ceiling && needed <= account.charged_bytes
                ==> r is Ok && after.charged_bytes == account.charged_bytes && left == budget
            &&& account.raw_bytes + bytes <= account.ceiling && needed > account.charged_bytes && (r
                is Ok) ==> needed <= after.charged_bytes && after.charged_bytes < 2 * needed
                && after.charged_bytes <= most && (after.charged_bytes == most || exists|k: nat|
                after.charged_bytes == #[trigger] power_of_two(k))
            &&& account.raw_bytes + bytes <= account.ceiling && budget.live + (most
                - account.charged_bytes) <= budget.limit ==> r is Ok
        }),
{
    let n = (2 * (account.raw_bytes + bytes) + 8) as nat;
    assert(power_of_two(0) == 1);
    lemma_power(1, n, 0);
}

/// A profile is sealed exactly where it and its parts are of the known schemas, its revisions are
/// named, its protocols agree, and its facts are exact.
pub proof fn sealed_profiles_are_exact(profile: &CandidateProtocolProfile, r: bool)
    requires
        call_ensures(sealed_connector_semantics, (profile,), r),
    ensures
        r <==> profile.schema_version@ == "hiroute.candidate-protocol-profile/v1"@
            && profile.capability.schema_version@ == "hiroute.candidate-capability/v1"@
            && profile.connector.schema_version@ == "hiroute.connector-profile/v1"@ && !is_blank(
            profile.adapter_revision@,
        ) && !is_blank(profile.serializer_revision@) && !is_blank(profile.decoder_revision@)
            && profile.capability.upstream_protocol == profile.connector.upstream_protocol
            && profile.connector.critical_facts_exact && profile.provider_path_exact
            && profile.reasoning_valid,
{
}

/// The errors of a connector are told apart as its profile says, and only of a sealed profile.
pub proof fn errors_are_told_apart_by_sealed_profiles(
    profile: &CandidateProtocolProfile,
    sealed: bool,
    r: Result<ConnectorErrorProfile, String>,
)
    requires
        call_ensures(sealed_connector_semantics, (profile,), sealed),
        call_ensures(connector_error_profile, (profile,), r),
    ensures
        r is Ok <==> sealed && profile.connector.errors is Some,
        r matches Ok(errors) ==> {
            let own = profile.connector.errors->0;
            &&& errors.http_status_typed == own.http_status_typed
            &&& errors.stream_error_typed == own.sse_error_typed
            &&& errors.retry_after_typed <==> own.retry_after_header is Some
        },
        r matches Err(error) ==> error@ == "protocol_failed"@,
{
}

/// A target is told only where it is another than the plan's, in whatever way.
pub proof fn other_targets_are_told(
    resolved: TransportTarget,
    planned: &TransportTarget,
    r: Option<TransportTarget>,
)
    requires
        call_ensures(resolved_transport_target, (resolved, planned), r),
    ensures
        r matches Some(target) ==> target == resolved,
        r is None ==> resolved.scheme == planned.scheme && resolved.authority@
            == planned.authority@ && resolved.addresses@ == planned.addresses@ && (
        resolved.unresolved_authority is Some <==> planned.unresolved_authority is Some) && (
        resolved.sni is Some <==> planned.sni is Some),
        resolved.scheme != planned.scheme || resolved.authority@ != planned.authority@
            || resolved.addresses@ != planned.addresses@ ==> r is Some,
        resolved == *planned ==> r is None,
{
}

} // verus!
