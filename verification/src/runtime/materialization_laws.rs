//! What the steps of an attempt say of what came back, told by the calls and their results.

use vstd::prelude::*;
use crate::digest::is_digest_text;
use crate::text::{
    after_prefix, before_first, decimal_text, decimal_text_denotes_its_number, is_blank, lowered,
    parsed_u64,
};
use crate::uri::{read_authority, UriParts};
use super::facts::{IngressProtocol, RetryabilityFact};
use super::materialization::{
    announced_cooldown, begin_request, candidate_at, check_execution, choose_target,
    classify_materialization_failure, cooling_prefix, covering_millis, credential_state_key,
    dns_lookup_target, find_candidate, finish_lookup, is_header_name, is_header_value,
    lease_logical_endpoint, lease_target_for_request, mechanical_failure,
    mechanical_failure_to_classify, needs_credential, numeric_host,
    operational_target_matches_plan, parse_cooldown, permit_or_materialization_error, plan_codecs,
    projection_reservation, request_headers, request_path, uri_matches_plan, with_required,
    AttemptMaterializationFailure, AttemptMaterializationFailureClass, AttemptTimeoutKind,
    CodecPlan, ExecutionEvidence, IpBits, LeaseOutcome, LeaseTarget, NativeTarget,
    OperationalTargetKind, ProductionLogicalRequest, ProductionReplaySeed, RequestHeaders,
    RequestIr, SealedCandidateExecution, TargetStep, TransportAddress, TransportOverride,
    TransportScheme, TransportTarget,
};
use super::profile::{CandidateProtocolProfile, ConnectorErrorProfile, ConnectorHeaders};
use super::response::RawAttemptFailure;
use super::selection::{
    CoreAttemptFailureClass, DecisionCandidateAuthority, ResolvedTargetBindingId,
};
use super::state::{PermitAvailability, RuntimeStateKey, StateKeyView, StatePermit};

verus! {

proof fn lemma_words()
    ensures
        "binding_cooling_down:"@ != "credential_cooling_down:"@,
        "binding_cooling_down:"@ != "binding_probe_busy"@,
        "binding_cooling_down:"@ != "credential_probe_busy"@,
        "binding_cooling_down:"@ != "binding_disabled"@,
        "binding_cooling_down:"@ != "credential_disabled"@,
        "binding_cooling_down:"@ != "binding_unavailable"@,
        "binding_cooling_down:"@ != "credential_exhausted"@,
        "binding_cooling_down:"@ != "dns_failed"@,
        "credential_cooling_down:"@ != "binding_probe_busy"@,
        "credential_cooling_down:"@ != "credential_probe_busy"@,
        "credential_cooling_down:"@ != "binding_disabled"@,
        "credential_cooling_down:"@ != "credential_disabled"@,
        "credential_cooling_down:"@ != "binding_unavailable"@,
        "credential_cooling_down:"@ != "credential_exhausted"@,
        "credential_cooling_down:"@ != "dns_failed"@,
        "binding_probe_busy"@ != "credential_probe_busy"@,
        "binding_probe_busy"@ != "binding_disabled"@,
        "binding_probe_busy"@ != "credential_disabled"@,
        "binding_probe_busy"@ != "binding_unavailable"@,
        "binding_probe_busy"@ != "credential_exhausted"@,
        "binding_probe_busy"@ != "dns_failed"@,
        "credential_probe_busy"@ != "binding_disabled"@,
        "credential_probe_busy"@ != "credential_disabled"@,
        "credential_probe_busy"@ != "binding_unavailable"@,
        "credential_probe_busy"@ != "credential_exhausted"@,
        "credential_probe_busy"@ != "dns_failed"@,
        "binding_disabled"@ != "credential_disabled"@,
        "binding_disabled"@ != "binding_unavailable"@,
        "binding_disabled"@ != "credential_exhausted"@,
        "binding_disabled"@ != "dns_failed"@,
        "credential_disabled"@ != "binding_unavailable"@,
        "credential_disabled"@ != "credential_exhausted"@,
        "credential_disabled"@ != "dns_failed"@,
        "binding_unavailable"@ != "credential_exhausted"@,
        "binding_unavailable"@ != "dns_failed"@,
        "credential_exhausted"@ != "dns_failed"@,
        "runtime_state_cooling_down"@ != "runtime_state_probe_busy"@,
        "runtime_state_cooling_down"@ != "runtime_state_disabled"@,
        "runtime_state_cooling_down"@ != "materialization_retryable"@,
        "runtime_state_cooling_down"@ != "materialization_fail_closed"@,
        "runtime_state_probe_busy"@ != "runtime_state_disabled"@,
        "runtime_state_probe_busy"@ != "materialization_retryable"@,
        "runtime_state_probe_busy"@ != "materialization_fail_closed"@,
        "runtime_state_disabled"@ != "materialization_retryable"@,
        "runtime_state_disabled"@ != "materialization_fail_closed"@,
        "materialization_retryable"@ != "materialization_fail_closed"@,
{
    reveal_strlit("binding_cooling_down:");
    reveal_strlit("credential_cooling_down:");
    reveal_strlit("binding_probe_busy");
    reveal_strlit("credential_probe_busy");
    reveal_strlit("binding_disabled");
    reveal_strlit("credential_disabled");
    reveal_strlit("binding_unavailable");
    reveal_strlit("credential_exhausted");
    reveal_strlit("dns_failed");
    assert("binding_cooling_down:"@.len() == 21);
    assert("credential_cooling_down:"@.len() == 24);
    assert("binding_probe_busy"@.len() == 18);
    assert("credential_probe_busy"@.len() == 21);
    assert("binding_disabled"@.len() == 16);
    assert("credential_disabled"@.len() == 19);
    assert("binding_unavailable"@.len() == 19);
    assert("credential_exhausted"@.len() == 20);
    assert("dns_failed"@.len() == 10);
    assert("binding_cooling_down:"@[0] != "credential_probe_busy"@[0]);
    assert("credential_disabled"@[0] != "binding_unavailable"@[0]);
    reveal_strlit("runtime_state_cooling_down");
    reveal_strlit("runtime_state_probe_busy");
    reveal_strlit("runtime_state_disabled");
    reveal_strlit("materialization_retryable");
    reveal_strlit("materialization_fail_closed");
    assert("runtime_state_cooling_down"@.len() == 26);
    assert("runtime_state_probe_busy"@.len() == 24);
    assert("runtime_state_disabled"@.len() == 22);
    assert("materialization_retryable"@.len() == 25);
    assert("materialization_fail_closed"@.len() == 27);
}

/// A text that begins one way is no text that begins another, nor one of a fixed length below.
proof fn lemma_cooling_text(binding: bool, millis: nat)
    requires
        0 < millis <= u64::MAX,
    ensures
        ({
            let error = cooling_prefix(binding) + decimal_text(millis);
            &&& announced_cooldown(error, cooling_prefix(binding)) == Some(
                (millis * 1_000_000) as u128,
            )
            &&& announced_cooldown(error, cooling_prefix(!binding)) is None
            &&& error != "binding_probe_busy"@ && error != "credential_probe_busy"@
            &&& error != "binding_disabled"@ && error != "credential_disabled"@
            &&& error != "binding_unavailable"@ && error != "credential_exhausted"@
            &&& error != "dns_failed"@
        }),
{
    lemma_words();
    let prefix = cooling_prefix(binding);
    let error = prefix + decimal_text(millis);
    decimal_text_denotes_its_number(millis);
    reveal_strlit("binding_cooling_down:");
    reveal_strlit("credential_cooling_down:");
    reveal_strlit("binding_probe_busy");
    reveal_strlit("credential_probe_busy");
    reveal_strlit("binding_disabled");
    reveal_strlit("credential_disabled");
    reveal_strlit("binding_unavailable");
    reveal_strlit("credential_exhausted");
    reveal_strlit("dns_failed");
    assert(error.take(prefix.len() as int) =~= prefix);
    assert(error.skip(prefix.len() as int) =~= decimal_text(millis));
    if binding {
        assert(error[0] == 'b');
        assert("credential_cooling_down:"@[0] == 'c');
        if error.len() >= 24 {
            assert(error.take(24)[0] == 'b');
        }
        assert("dns_failed"@[0] == 'd');
    } else {
        assert(error[0] == 'c');
        assert("binding_cooling_down:"@[0] == 'b');
        if error.len() >= 21 {
            assert(error.take(21)[0] == 'c');
        }
        assert("dns_failed"@[0] == 'd');
    }
}

/// What keeps an attempt from its permit is told again by the classification of its error: another
/// candidate may be tried; a rest is charged to the binding or to the credential that rests, with a
/// delay of whole milliseconds that covers it and no more; a probe that is under way is to be
/// waited for, one second; a disabled entry names no delay.
pub proof fn what_is_not_to_be_had_is_told(
    availability: PermitAvailability,
    binding: bool,
    now: u128,
    told: Result<StatePermit, String>,
    error: &str,
    r: AttemptMaterializationFailure,
)
    requires
        call_ensures(permit_or_materialization_error, (availability, binding, now), told),
        !(availability is Permit),
        told matches Err(text) && text@ == error@,
        call_ensures(classify_materialization_failure, (error,), r),
    ensures
        r.provider.retryability == RetryabilityFact::Retryable,
        r.provider.readiness@ == "materialization_failed"@,
        r.class == if binding {
            AttemptMaterializationFailureClass::Materialization
        } else {
            AttemptMaterializationFailureClass::Credential
        },
        r.termination_reason@ == if binding {
            "materialization"@
        } else {
            "credential"@
        },
        availability matches PermitAvailability::CoolingDown { until } ==> {
            &&& r.provider.error_class matches Some(class) && class@
                == "runtime_state_cooling_down"@
            &&& r.provider.retry_after matches Some(delay) && delay >= 1_000_000 && delay
                as nat % 1_000_000 == 0 && (now < until && until - now <= u64::MAX * 1_000_000
                ==> until - now <= delay < until - now + 1_000_000) && (until <= now ==> delay
                == 1_000_000)
        },
        availability is ProbeBusy ==> (r.provider.error_class matches Some(class) && class@
            == "runtime_state_probe_busy"@) && r.provider.retry_after == Some(1_000_000_000u128),
        availability is Disabled ==> (r.provider.error_class matches Some(class) && class@
            == "runtime_state_disabled"@) && r.provider.retry_after is None,
{
    lemma_words();
    lemma_not_cooling();
    match availability {
        PermitAvailability::CoolingDown { until } => {
            let millis = covering_millis(until, now);
            lemma_cooling_text(binding, millis);
            assert(error@ == cooling_prefix(binding) + decimal_text(millis));
            assert((millis * 1_000_000) % 1_000_000 == 0) by (nonlinear_arith);
        },
        _ => {},
    }
}

/// None of the fixed texts announces a rest.
proof fn lemma_not_cooling()
    ensures
        forall|binding: bool| #![trigger cooling_prefix(binding)] {
            &&& announced_cooldown("binding_probe_busy"@, cooling_prefix(binding)) is None
            &&& announced_cooldown("credential_probe_busy"@, cooling_prefix(binding)) is None
            &&& announced_cooldown("binding_disabled"@, cooling_prefix(binding)) is None
            &&& announced_cooldown("credential_disabled"@, cooling_prefix(binding)) is None
            &&& announced_cooldown("binding_unavailable"@, cooling_prefix(binding)) is None
            &&& announced_cooldown("credential_exhausted"@, cooling_prefix(binding)) is None
            &&& announced_cooldown("dns_failed"@, cooling_prefix(binding)) is None
        },
{
    lemma_words();
    reveal_strlit("binding_cooling_down:");
    reveal_strlit("credential_cooling_down:");
    reveal_strlit("binding_probe_busy");
    reveal_strlit("credential_probe_busy");
    reveal_strlit("binding_disabled");
    reveal_strlit("credential_disabled");
    reveal_strlit("binding_unavailable");
    reveal_strlit("credential_exhausted");
    reveal_strlit("dns_failed");
}

/// Each error of an attempt that could not be made is retried where another candidate or
/// credential may do better, and no other is.
pub proof fn only_what_may_pass_elsewhere_is_retried(
    error: &str,
    r: AttemptMaterializationFailure,
)
    requires
        call_ensures(classify_materialization_failure, (error,), r),
    ensures
        error@ == "dns_failed"@ ==> r.class == AttemptMaterializationFailureClass::Dns
            && r.termination_reason@ == "dns"@ && r.provider.retryability
            == RetryabilityFact::Retryable,
        error@ == "credential_exhausted"@ ==> r.class
            == AttemptMaterializationFailureClass::Credential && r.termination_reason@
            == "credential"@ && r.provider.retryability == RetryabilityFact::Retryable,
        error@ == "binding_unavailable"@ ==> r.class
            == AttemptMaterializationFailureClass::Materialization && r.termination_reason@
            == "materialization"@ && r.provider.retryability == RetryabilityFact::Retryable,
        error@ == "dns_failed"@ || error@ == "credential_exhausted"@ || error@
            == "binding_unavailable"@ ==> (r.provider.error_class matches Some(class) && class@
            == "materialization_retryable"@) && r.provider.retry_after is None,
        error@ != "dns_failed"@ && error@ != "credential_exhausted"@ && error@
            != "binding_unavailable"@ && error@ != "binding_probe_busy"@ && error@
            != "credential_probe_busy"@ && error@ != "binding_disabled"@ && error@
            != "credential_disabled"@ && after_prefix(error@, "binding_cooling_down:"@) is None
            && after_prefix(error@, "credential_cooling_down:"@) is None ==> {
            &&& r.class == AttemptMaterializationFailureClass::Materialization
            &&& r.termination_reason@ == "materialization"@
            &&& r.provider.retryability == RetryabilityFact::NonRetryable
            &&& r.provider.error_class matches Some(class) && class@
                == "materialization_fail_closed"@
            &&& r.provider.retry_after is None
        },
        r.provider.http_status is None && r.provider.usage is None && r.provider.model_event is None,
{
    lemma_words();
    lemma_not_cooling();
}

/// A rest is announced in whole milliseconds behind its prefix; no milliseconds, or anything that
/// is no number, announce nothing.
pub proof fn rests_are_announced_in_milliseconds(
    error: &str,
    prefix: &str,
    millis: u64,
    r: Option<u128>,
)
    requires
        call_ensures(parse_cooldown, (error, prefix), r),
    ensures
        error@ == prefix@ + decimal_text(millis as nat) ==> r == (if millis == 0 {
            None
        } else {
            Some((millis * 1_000_000) as u128)
        }),
        r matches Some(delay) ==> delay > 0 && delay as nat % 1_000_000 == 0 && error@.len()
            > prefix@.len() && error@.take(prefix@.len() as int) == prefix@,
{
    if error@ == prefix@ + decimal_text(millis as nat) {
        decimal_text_denotes_its_number(millis as nat);
        assert(error@.take(prefix@.len() as int) =~= prefix@);
        assert(error@.skip(prefix@.len() as int) =~= decimal_text(millis as nat));
    }
    if let Some(delay) = r {
        let rest = error@.skip(prefix@.len() as int);
        let number = parsed_u64(rest)->0;
        assert((number * 1_000_000) % 1_000_000 == 0) by (nonlinear_arith);
        assert(rest.len() > 0);
    }
}

/// A plan goes where the operational target says: by the same scheme and to the same authority. A
/// registered target is looked up. Where a configured target spells an address, the plan goes
/// there alone, to the port that is named or else the usual one of its scheme; where it spells
/// none, it is looked up. A managed loopback spells its address and its port.
pub proof fn plans_go_where_their_targets_say(
    kind: OperationalTargetKind,
    uri: &Option<UriParts>,
    target: &TransportTarget,
    host_address: Option<IpBits>,
    r: bool,
)
    requires
        call_ensures(uri_matches_plan, (kind, uri, target, host_address), r),
    ensures
        r ==> (*uri matches Some(parts) && (parts.scheme matches Some(scheme) && (scheme@
            == "https"@ <==> target.scheme is Https) && (scheme@ == "http"@ <==> target.scheme
            is Http)) && (parts.authority matches Some(authority) && authority.text@ == (
        match target.unresolved_authority {
            Some(name) => name@,
            None => target.authority@,
        }))),
        r ==> match kind {
            OperationalTargetKind::RegisteredHttps => target.unresolved_authority is Some,
            OperationalTargetKind::UserConfiguredNative => target.unresolved_authority is None
                <==> host_address is Some,
            OperationalTargetKind::ManagedCpaLoopback => target.unresolved_authority is None
                && host_address is Some,
        },
        r && target.unresolved_authority is None ==> {
            let authority = (*uri)->0.authority->0;
            &&& target.addresses@.len() == 1
            &&& host_address == Some(target.addresses@[0].ip)
            &&& match authority.port {
                Some(port) => target.addresses@[0].port == port,
                None => !(kind is ManagedCpaLoopback) && target.addresses@[0].port == match target.scheme {
                    TransportScheme::Https => 443u16,
                    TransportScheme::Http => 80,
                },
            }
        },
{
    reveal_strlit("http");
    reveal_strlit("https");
    assert("http"@.len() == 4 && "https"@.len() == 5);
    if r && target.unresolved_authority is None {
        assert(target.addresses@.len() == 1);
    }
}

/// And a plan that goes there is accepted.
pub proof fn plans_that_go_there_are_accepted(
    kind: OperationalTargetKind,
    uri: &Option<UriParts>,
    target: &TransportTarget,
    host_address: Option<IpBits>,
    r: bool,
)
    requires
        call_ensures(uri_matches_plan, (kind, uri, target, host_address), r),
        *uri matches Some(parts) && (parts.scheme matches Some(scheme) && scheme@ == (
        match target.scheme {
            TransportScheme::Https => "https"@,
            TransportScheme::Http => "http"@,
        })) && (parts.authority matches Some(authority) && authority.text@ == (
        match target.unresolved_authority {
            Some(name) => name@,
            None => target.authority@,
        })),
        match (target.unresolved_authority, host_address, (*uri)->0.authority->0.port) {
            (Some(_), None, _) => !(kind is ManagedCpaLoopback),
            (Some(_), Some(_), _) => kind is RegisteredHttps,
            (None, Some(ip), Some(port)) => !(kind is RegisteredHttps) && target.addresses@ == seq![
                TransportAddress { ip, port },
            ],
            (None, Some(ip), None) => kind is UserConfiguredNative && target.addresses@.len() == 1
                && target.addresses@[0].ip == ip && target.addresses@[0].port == (
            match target.scheme {
                TransportScheme::Https => 443u16,
                TransportScheme::Http => 80,
            }),
            (None, None, _) => false,
        },
    ensures
        r,
{
    if target.unresolved_authority is None {
        assert(target.addresses@ =~= seq![target.addresses@[0]]);
    }
}

/// What an accepted execution is: that of the schema, the target and the digests that the
/// candidate and the plan name, complete, and computed anew to the same digests. A native
/// connector serves the request path and sends the model under its own name.
pub proof fn accepted_executions_are_the_candidates_own(
    execution: &SealedCandidateExecution,
    evidence: &ExecutionEvidence,
    schema: &str,
    stable_target: &str,
    profile_digest: &str,
    ingress: IngressProtocol,
    target: &TransportTarget,
    r: Result<(), String>,
)
    requires
        call_ensures(
            check_execution,
            (execution, evidence, schema, stable_target, profile_digest, ingress, target),
            r,
        ),
    ensures
        r is Ok ==> {
            &&& execution.schema_version@ == schema@
            &&& execution.stable_target_key@ == stable_target@
            &&& execution.profile_digest@ == profile_digest@
            &&& evidence.profile_digest matches Some(digest) && digest@ == profile_digest@
            &&& evidence.target_digest matches Some(digest) && digest@
                == execution.operational_target_digest@
            &&& evidence.target_is_valid
            &&& is_digest_text(execution.protocol_set_digest@)
            &&& execution.protocol_profile.ingress_protocol == ingress
            &&& execution.protocol_profile.capability.native_model@
                == execution.native_transport_model@
            &&& execution.protocol_profile.connector.authentication is Some
            &&& !is_blank(execution.credential_destination_ref@)
            &&& !is_blank(execution.logical_endpoint@)
            &&& !is_blank(execution.upstream_model_id@)
            &&& !is_blank(execution.native_transport_model@)
        },
        r is Ok && execution.connector_runtime is BuiltinNative ==> evidence.target_serves_path
            && execution.upstream_model_id@ == execution.native_transport_model@,
        r matches Err(error) ==> error@ == "protocol_failed"@,
{
}

/// An execution that is all this, with a transport that goes where its target says, is accepted.
pub proof fn the_candidates_own_executions_are_accepted(
    execution: &SealedCandidateExecution,
    evidence: &ExecutionEvidence,
    schema: &str,
    stable_target: &str,
    profile_digest: &str,
    ingress: IngressProtocol,
    target: &TransportTarget,
    goes: bool,
    r: Result<(), String>,
)
    requires
        call_ensures(
            check_execution,
            (execution, evidence, schema, stable_target, profile_digest, ingress, target),
            r,
        ),
        call_ensures(
            operational_target_matches_plan,
            (&execution.operational_target, target, evidence.host_address),
            goes,
        ),
        execution.schema_version@ == schema@,
        execution.stable_target_key@ == stable_target@,
        execution.profile_digest@ == profile_digest@,
        evidence.profile_digest matches Some(digest) && digest@ == profile_digest@,
        evidence.target_digest matches Some(digest) && digest@
            == execution.operational_target_digest@,
        evidence.target_is_valid,
        is_digest_text(execution.protocol_set_digest@),
        execution.protocol_profile.ingress_protocol == ingress,
        execution.protocol_profile.capability.native_model@ == execution.native_transport_model@,
        execution.protocol_profile.connector.authentication is Some,
        !is_blank(execution.credential_destination_ref@),
        !is_blank(execution.logical_endpoint@),
        !is_blank(execution.upstream_model_id@),
        !is_blank(execution.native_transport_model@),
        execution.connector_runtime is BuiltinNative ==> evidence.target_serves_path
            && execution.upstream_model_id@ == execution.native_transport_model@,
    ensures
        r is Ok <==> goes,
{
}

/// The host of an address in brackets is what the brackets hold; any other host is itself.
pub proof fn brackets_are_taken_off(host: &str, inner: Seq<char>, r: String)
    requires
        call_ensures(numeric_host, (host,), r),
    ensures
        host@ == seq!['['] + inner + seq![']'] ==> r@ == inner,
        host@.len() == 0 || host@[0] != '[' || host@.last() != ']' ==> r@ == host@,
{
    reveal_strlit("[");
    reveal_strlit("]");
    assert("["@ =~= seq!['[']);
    assert("]"@ =~= seq![']']);
    if host@ == seq!['['] + inner + seq![']'] {
        assert(host@.take(1) =~= seq!['[']);
        let rest = host@.skip(1);
        assert(rest =~= inner + seq![']']);
        assert(rest.skip(rest.len() - 1) =~= seq![']']);
        assert(rest.take(rest.len() - 1) =~= inner);
    }
    if host@.len() > 0 && host@.take(1) == "["@ {
        assert(host@.take(1)[0] == host@[0]);
        let rest = host@.skip(1);
        if rest.len() > 0 && rest.skip(rest.len() - 1) == "]"@ {
            assert(rest.skip(rest.len() - 1)[0] == rest.last());
            assert(rest.last() == host@.last());
        }
    }
}

/// The path of a request is what stands before its query, and the whole where it has none.
pub proof fn paths_end_at_the_query(path_and_query: &str, r: String)
    requires
        call_ensures(request_path, (path_and_query,), r),
    ensures
        !r@.contains('?'),
        r@.len() <= path_and_query@.len() && r@ == path_and_query@.take(r@.len() as int),
        r@.len() < path_and_query@.len() ==> path_and_query@[r@.len() as int] == '?',
{
    lemma_before(path_and_query@, '?');
}

proof fn lemma_before(s: Seq<char>, c: char)
    ensures
        ({
            let r = before_first(s, c);
            &&& !r.contains(c)
            &&& r.len() <= s.len() && r == s.take(r.len() as int)
            &&& r.len() < s.len() ==> s[r.len() as int] == c
        }),
    decreases s.len(),
{
    let r = before_first(s, c);
    if s.len() == 0 || s[0] == c {
        assert(r =~= s.take(0));
    } else {
        let rest = s.skip(1);
        let found = before_first(rest, c);
        lemma_before(rest, c);
        assert(r =~= s.take(r.len() as int)) by {
            assert forall|i: int| 0 <= i < r.len() implies r[i] == s[i] by {
                if i > 0 {
                    assert(r[i] == found[i - 1]);
                    assert(found[i - 1] == rest.take(found.len() as int)[i - 1]);
                }
            }
        }
        if r.contains(c) {
            let i = choose|i: int| 0 <= i < r.len() && r[i] == c;
            assert(i > 0);
            assert(found[i - 1] == c);
        }
        if r.len() < s.len() {
            assert(rest[found.len() as int] == s[r.len() as int]);
        }
    }
}

/// A name is looked up at its own port, or else at the usual one of the scheme.
pub proof fn names_are_looked_up_at_their_port(
    authority: &str,
    scheme: TransportScheme,
    r: Result<(String, u16), String>,
)
    requires
        call_ensures(dns_lookup_target, (authority, scheme), r),
    ensures
        r is Ok <==> read_authority(authority@) is Some,
        r matches Ok(pair) ==> pair.0@ == read_authority(authority@)->0.host && pair.1 == (
        match read_authority(authority@)->0.port {
            Some(port) => port,
            None => if scheme is Https {
                443
            } else {
                80
            },
        }),
        r matches Err(error) ==> error@ == "dns_failed"@,
{
}

/// Only a bridge is redirected, and a bridge always is: to the one address that its credential was
/// leased with, over plain HTTP and under no other name. Any other attempt keeps the plan's target
/// or has it looked up.
pub proof fn only_bridges_are_redirected(
    execution: &SealedCandidateExecution,
    planned: &TransportTarget,
    transport_override: Option<&TransportOverride>,
    r: Result<TargetStep, String>,
)
    requires
        call_ensures(choose_target, (execution, planned, transport_override), r),
    ensures
        (r matches Ok(TargetStep::Use(used))) <==> (transport_override matches Some(own)
            && execution.connector_runtime is CpaBridge
            && execution.operational_target.runtime_epoch is Some && own.request_path@
            == execution.protocol_profile.connector.request_path@),
        r matches Ok(TargetStep::Use(used)) ==> {
            let own = transport_override->0;
            &&& used.scheme is Http
            &&& used.authority@ == own.address_text@
            &&& used.addresses@ == seq![own.address]
            &&& used.sni is None
            &&& (used.unresolved_authority is Some <==> planned.unresolved_authority is Some)
        },
        (r matches Ok(step) && !(step is Use)) ==> execution.connector_runtime is BuiltinNative
            && transport_override is None,
        transport_override is None && execution.connector_runtime is BuiltinNative
            && planned.unresolved_authority is None ==> r matches Ok(TargetStep::Keep),
        transport_override is None && execution.connector_runtime is BuiltinNative && (
        planned.unresolved_authority matches Some(name) && read_authority(name@) is Some) ==> (r
            matches Ok(TargetStep::LookUp { host, port }) && host@ == read_authority(
            planned.unresolved_authority->0@,
        )->0.host),
        r matches Err(error) ==> error@ == "authority_failed"@ || (error@ == "dns_failed"@
            && execution.connector_runtime is BuiltinNative),
{
    if let Ok(TargetStep::Use(used)) = r {
        assert(used@.scheme == used.scheme);
        assert(used@.unresolved_authority == planned@.unresolved_authority);
    }
}

/// What a lookup found is where the attempt goes, under the plan's scheme, authority and name; a
/// lookup that finds nothing fails.
pub proof fn lookups_only_add_addresses(
    planned: &TransportTarget,
    found: Option<&Vec<TransportAddress>>,
    r: Result<TransportTarget, String>,
)
    requires
        call_ensures(finish_lookup, (planned, found), r),
    ensures
        r is Ok <==> (found matches Some(addresses) && addresses@.len() > 0),
        r matches Ok(target) ==> {
            &&& target.addresses@ == found->0@
            &&& target.unresolved_authority is None
            &&& target.scheme == planned.scheme
            &&& target.authority@ == planned.authority@
            &&& target.sni is Some <==> planned.sni is Some
            &&& target.sni is Some ==> target.sni->0@ == planned.sni->0@
        },
        r matches Err(error) ==> error@ == "dns_failed"@,
{
    if let Ok(target) = r {
        assert(target@.sni == planned@.sni);
        assert(target@.unresolved_authority is None);
    }
}

/// The candidate of an attempt is the first with its binding, and its target must be the plan's.
pub proof fn attempts_find_their_first_candidate(
    logical: &ProductionLogicalRequest,
    binding: ResolvedTargetBindingId,
    stable_target: &str,
    r: Result<usize, String>,
)
    requires
        call_ensures(find_candidate, (logical, binding, stable_target), r),
    ensures
        r matches Ok(at) ==> {
            let all = logical.frozen_candidates@;
            &&& at < all.len()
            &&& all[at as int].binding == binding
            &&& all[at as int].stable_target@ == stable_target@
            &&& forall|i: int| 0 <= i < at ==> (#[trigger] all[i]).binding != binding
        },
        (exists|at: int|
            0 <= at < logical.frozen_candidates@.len() && (
            #[trigger] logical.frozen_candidates@[at]).binding == binding
                && logical.frozen_candidates@[at].stable_target@ == stable_target@ && forall|i: int|
                0 <= i < at ==> (#[trigger] logical.frozen_candidates@[i]).binding != binding)
            ==> r is Ok,
{
    lemma_candidate_at(logical.frozen_candidates@, binding);
}

proof fn lemma_candidate_at(
    candidates: Seq<DecisionCandidateAuthority>,
    binding: ResolvedTargetBindingId,
)
    ensures
        match candidate_at(candidates, binding) {
            Some(at) => 0 <= at < candidates.len() && candidates[at].binding == binding
                && forall|i: int| 0 <= i < at ==> (#[trigger] candidates[i]).binding != binding,
            None => forall|i: int|
                0 <= i < candidates.len() ==> (#[trigger] candidates[i]).binding != binding,
        },
    decreases candidates.len(),
{
    if candidates.len() > 0 && candidates[0].binding != binding {
        let rest = candidates.skip(1);
        lemma_candidate_at(rest, binding);
        match candidate_at(rest, binding) {
            Some(at) => {
                assert(candidates[at + 1] == rest[at]);
                assert forall|i: int| 0 <= i < at + 1 implies (
                #[trigger] candidates[i]).binding != binding by {
                    if i > 0 {
                        assert(rest[i - 1] == candidates[i]);
                    }
                }
            },
            None => {
                assert forall|i: int| 0 <= i < candidates.len() implies (
                #[trigger] candidates[i]).binding != binding by {
                    if i > 0 {
                        assert(rest[i - 1] == candidates[i]);
                    }
                }
            },
        }
    }
}

/// A request begins with what it was planned with, and with candidates that carry all that an
/// attempt needs.
pub proof fn requests_begin_as_planned(
    ingress: Option<IngressProtocol>,
    seed: Option<ProductionReplaySeed>,
    candidates: Option<Vec<DecisionCandidateAuthority>>,
    r: Result<ProductionLogicalRequest, String>,
)
    requires
        call_ensures(begin_request, (ingress, seed, candidates), r),
    ensures
        r is Ok ==> ingress is Some && (seed matches Some(seed) && seed.ingress == ingress->0
            && seed.ir.ingress_protocol == ingress->0) && (candidates matches Some(all)
            && all@.len() > 0),
        r is Ok ==> forall|i: int|
            0 <= i < candidates->0@.len() ==> (
            #[trigger] candidates->0@[i]).candidate_id is Some && candidates->0@[i].profile_digest
                is Some && candidates->0@[i].reason_ledger_identity is Some
                && candidates->0@[i].provider_profile is Some,
        ingress is Some && (seed matches Some(seed) && seed.ingress == ingress->0
            && seed.ir.ingress_protocol == ingress->0) && (candidates matches Some(all)
            && all@.len() > 0 && forall|i: int|
            0 <= i < all@.len() ==> (#[trigger] all@[i]).candidate_id is Some
                && all@[i].profile_digest is Some && all@[i].reason_ledger_identity is Some
                && all@[i].provider_profile is Some) ==> r is Ok,
        r matches Ok(logical) ==> {
            &&& logical.ingress == ingress->0
            &&& logical.raw_body_bytes == seed->0.raw_body_bytes
            &&& logical.observed_body_bytes == 0 && !logical.body_eos
            &&& logical.ir == Some(seed->0.ir)
            &&& logical.frozen_candidates == candidates->0
            &&& logical.route_context == Some(seed->0.route_context)
        },
{
}

/// A profile without authentication goes with no credential, and any other with one: a reference
/// of the wrong sort is refused.
pub proof fn credentials_fit_their_profile(
    profile: &CandidateProtocolProfile,
    credential_ref: &str,
    r: Result<bool, String>,
)
    requires
        call_ensures(needs_credential, (profile, credential_ref), r),
    ensures
        (r matches Ok(true)) <==> (profile.connector.authentication matches Some(authentication)
            && authentication is Required) && after_prefix(credential_ref@, "credential/none/"@)
            is None,
        (r matches Ok(false)) <==> (profile.connector.authentication matches Some(authentication)
            && authentication is Anonymous) && after_prefix(credential_ref@, "credential/none/"@)
            is Some,
{
}

/// A bridge is known by its logical endpoint, a native connector by the target that it goes to.
pub proof fn leases_name_the_endpoint(
    execution: &SealedCandidateExecution,
    uri: &str,
    r: String,
)
    requires
        call_ensures(lease_logical_endpoint, (execution, uri), r),
    ensures
        execution.connector_runtime is CpaBridge ==> r@ == execution.logical_endpoint@,
        execution.connector_runtime is BuiltinNative ==> r@ == uri@,
{
}

/// What a lease is for: the target of a bridge's execution always; a native connector's own target
/// where its profile has one, and only a valid one; else that of its execution, where it serves
/// the path.
pub proof fn leases_are_for_one_target(
    execution: &SealedCandidateExecution,
    native_target: &Option<NativeTarget>,
    target_serves_path: bool,
    r: Result<LeaseTarget, String>,
)
    requires
        call_ensures(lease_target_for_request, (execution, native_target, target_serves_path), r),
    ensures
        (r matches Ok(LeaseTarget::Execution)) <==> execution.connector_runtime is CpaBridge,
        (r matches Ok(LeaseTarget::Profile)) <==> execution.connector_runtime is BuiltinNative && (
        *native_target matches Some(own) && own.valid),
        (r matches Ok(LeaseTarget::ExecutionForPath)) <==> execution.connector_runtime
            is BuiltinNative && *native_target is None && target_serves_path,
{
}

/// The state of a credential is kept for its target, its reference, its key and its generation, and
/// only for a lease of the credential that was asked for.
pub proof fn credential_states_are_of_what_was_leased(
    stable_target: &str,
    credential_ref: &str,
    lease: &LeaseOutcome,
    r: Result<RuntimeStateKey, String>,
)
    requires
        call_ensures(credential_state_key, (stable_target, credential_ref, lease), r),
    ensures
        r is Ok <==> (*lease matches LeaseOutcome::Leased(own) && own.credential_ref@
            == credential_ref@),
        r matches Ok(key) ==> (key@ matches StateKeyView::Credential {
            stable_target: target,
            credential_ref: reference,
            key_id,
            generation,
        } && target == stable_target@ && reference == credential_ref@ && key_id
            == lease->Leased_0.key_id@ && generation == lease->Leased_0.generation),
        r matches Err(error) ==> (if *lease is Exhausted {
            error@ == "credential_exhausted"@
        } else {
            error@ == "authority_failed"@
        }),
{
}

/// A stream that leaves in the protocol that it comes in needs no renderer; one that does not needs
/// one; a response that is no stream never does.
pub proof fn only_foreign_streams_are_rendered(
    ir: &Option<RequestIr>,
    profile: &CandidateProtocolProfile,
    r: Result<CodecPlan, String>,
)
    requires
        call_ensures(plan_codecs, (ir, profile), r),
    ensures
        r is Ok <==> *ir is Some,
        r matches Ok(plan) ==> {
            &&& plan.streaming == (*ir)->0.stream
            &&& plan.native_output <==> profile.ingress_protocol
                == profile.capability.upstream_protocol
            &&& plan.needs_renderer <==> plan.streaming && !plan.native_output
        },
{
}

/// Bytes that a projection retains are reserved, all of them; none need no reservation; what cannot
/// be counted fails.
pub proof fn retained_bytes_are_reserved(
    retained: Option<Option<usize>>,
    r: Result<Option<usize>, String>,
)
    requires
        call_ensures(projection_reservation, (retained,), r),
    ensures
        r is Err <==> retained matches Some(None),
        r matches Ok(Some(bytes)) ==> bytes > 0 && retained == Some(Some(bytes)),
        r matches Ok(None) ==> retained is None || retained == Some(Some(0usize)),
{
}

proof fn lemma_required(
    headers: Map<Seq<char>, Seq<char>>,
    required: Seq<(String, String)>,
    name: Seq<char>,
)
    ensures
        ({
            let after = with_required(headers, required);
            &&& (forall|i: int|
                0 <= i < required.len() ==> lowered((#[trigger] required[i]).0@) != name) ==> (
            after.contains_key(name) == headers.contains_key(name) && (headers.contains_key(name)
                ==> after[name] == headers[name]))
            &&& forall|i: int|
                0 <= i < required.len() && lowered((#[trigger] required[i]).0@) == name && (
                forall|j: int|
                    i < j < required.len() ==> lowered((#[trigger] required[j]).0@) != name)
                    ==> after.contains_key(name) && after[name] == required[i].1@
        }),
    decreases required.len(),
{
    if required.len() > 0 {
        let rest = required.drop_last();
        lemma_required(headers, rest, name);
        let last = required.len() - 1;
        assert(required[last] == required.last());
        assert forall|i: int| 0 <= i < rest.len() implies #[trigger] rest[i] == required[i] by {}
        let after = with_required(headers, required);
        let before = with_required(headers, rest);
        if forall|i: int| 0 <= i < required.len() ==> lowered((#[trigger] required[i]).0@) != name {
            assert(lowered(required[last].0@) != name);
            assert forall|i: int| 0 <= i < rest.len() implies lowered((#[trigger] rest[i]).0@)
                != name by {
                assert(lowered(required[i].0@) != name);
            }
        }
        assert forall|i: int|
            0 <= i < required.len() && lowered((#[trigger] required[i]).0@) == name && (
            forall|j: int|
                i < j < required.len() ==> lowered((#[trigger] required[j]).0@) != name)
                implies after.contains_key(name) && after[name] == required[i].1@ by {
            if i < last {
                assert(lowered(required[last].0@) != name);
                assert(lowered(rest[i].0@) == name);
                assert forall|j: int| i < j < rest.len() implies lowered((#[trigger] rest[j]).0@)
                    != name by {
                    assert(lowered(required[j].0@) != name);
                }
            }
        }
    }
}

/// The headers of a request: its length is the length of its body, whatever the connector asks for;
/// each header that the connector asks for is there under its name in lower case, with its last
/// value; and the host and the content type are its own unless the connector asks for others.
pub proof fn requests_carry_their_headers(
    authority: &str,
    connector: &Option<ConnectorHeaders>,
    wire_bytes: u64,
    r: Result<RequestHeaders, String>,
    at: int,
    name: Seq<char>,
)
    requires
        call_ensures(request_headers, (authority, connector, wire_bytes), r),
        r is Ok,
    ensures
        ({
            let headers = r->Ok_0@;
            let required = (*connector)->0.required_headers@;
            &&& *connector is Some
            &&& headers.contains_key("content-length"@)
            &&& headers["content-length"@] == decimal_text(wire_bytes as nat)
            &&& 0 <= at < required.len() && lowered(required[at].0@) == name && name
                != "content-length"@ && (forall|j: int|
                at < j < required.len() ==> lowered((#[trigger] required[j]).0@) != name)
                ==> headers.contains_key(name) && headers[name] == required[at].1@
            &&& (forall|j: int|
                0 <= j < required.len() ==> lowered((#[trigger] required[j]).0@) != name) ==> {
                &&& name == "host"@ ==> headers.contains_key(name) && headers[name] == authority@
                &&& name == "content-type"@ ==> headers.contains_key(name) && headers[name] == (
                *connector)->0.content_type@
                &&& name != "host"@ && name != "content-type"@ && name != "content-length"@
                    ==> !headers.contains_key(name)
            }
        }),
{
    reveal_strlit("host");
    reveal_strlit("content-type");
    reveal_strlit("content-length");
    assert("host"@.len() == 4);
    assert("content-type"@.len() == 12);
    assert("content-length"@.len() == 14);
    let required = (*connector)->0.required_headers@;
    let first = Map::<Seq<char>, Seq<char>>::empty().insert("host"@, authority@).insert(
        "content-type"@,
        (*connector)->0.content_type@,
    );
    lemma_required(first, required, name);
}

/// A request has headers exactly where its connector says which, and all of them may be sent.
pub proof fn headers_are_made_of_what_may_be_sent(
    authority: &str,
    connector: &Option<ConnectorHeaders>,
    wire_bytes: u64,
    r: Result<RequestHeaders, String>,
)
    requires
        call_ensures(request_headers, (authority, connector, wire_bytes), r),
    ensures
        r is Ok ==> (*connector matches Some(own) && may_be_sent(authority@) && may_be_sent(
            own.content_type@,
        ) && forall|i: int|
            0 <= i < own.required_headers@.len() ==> may_be_sent(
                (#[trigger] own.required_headers@[i]).1@,
            ) && 0 < own.required_headers@[i].0@.len() <= 65535 && is_token(
                own.required_headers@[i].0@,
            )),
        (*connector matches Some(own) && may_be_sent(authority@) && may_be_sent(own.content_type@)
            && forall|i: int|
            0 <= i < own.required_headers@.len() ==> may_be_sent(
                (#[trigger] own.required_headers@[i]).1@,
            ) && 0 < own.required_headers@[i].0@.len() <= 65535 && is_token(
                own.required_headers@[i].0@,
            )) ==> r is Ok,
        r matches Err(error) ==> error@ == "protocol_failed"@,
{
    lemma_sent(authority@);
    if let Some(own) = *connector {
        lemma_sent(own.content_type@);
        let all = own.required_headers@;
        assert forall|i: int| 0 <= i < all.len() implies (is_header_value((#[trigger] all[i]).1@)
            <==> may_be_sent(all[i].1@)) && (is_header_name(all[i].0@) <==> 0 < all[i].0@.len()
            <= 65535 && is_token(all[i].0@)) by {
            lemma_sent(all[i].1@);
            lemma_token(all[i].0@);
        }
    }
}

/// Whether a text has no control characters but tabs.
pub open spec fn may_be_sent(text: Seq<char>) -> bool {
    forall|c: char| #[trigger] text.contains(c) ==> c as u32 == 9 || (c as u32 >= 32 && c as u32 != 127)
}

/// Whether a text is made of ASCII letters, digits and the marks that a token may have.
pub open spec fn is_token(text: Seq<char>) -> bool {
    forall|c: char| #[trigger]
        text.contains(c) ==> 97 <= c as u32 <= 122 || 65 <= c as u32 <= 90 || 48 <= c as u32 <= 57
            || "!#$%&'*+-.^_`|~"@.contains(c)
}

proof fn lemma_sent(text: Seq<char>)
    ensures
        is_header_value(text) <==> may_be_sent(text),
{
    if is_header_value(text) {
        assert forall|c: char| #[trigger] text.contains(c) implies c as u32 == 9 || (c as u32 >= 32 && c
            as u32 != 127) by {
            let i = choose|i: int| 0 <= i < text.len() && text[i] == c;
            assert(crate::runtime::materialization::is_value_char(text[i]));
        }
    }
    if may_be_sent(text) {
        assert forall|i: int|
            0 <= i < text.len() implies crate::runtime::materialization::is_value_char(
            #[trigger] text[i],
        ) by {
            assert(text.contains(text[i]));
        }
    }
}

proof fn lemma_token(text: Seq<char>)
    ensures
        (forall|i: int|
            0 <= i < text.len() ==> crate::runtime::materialization::is_name_char(
                #[trigger] text[i],
            )) <==> is_token(text),
{
    let marks = "!#$%&'*+-.^_`|~"@;
    reveal_strlit("!#$%&'*+-.^_`|~");
    assert(marks.len() == 15);
    assert forall|c: char| #[trigger] marks.contains(c) <==> c == '!' || c == '#' || c == '$' || c
        == '%' || c == '&' || c == '\'' || c == '*' || c == '+' || c == '-' || c == '.' || c == '^'
        || c == '_' || c == '`' || c == '|' || c == '~' by {
        assert(marks[0] == '!' && marks[1] == '#' && marks[2] == '$' && marks[3] == '%' && marks[4]
            == '&' && marks[5] == '\'' && marks[6] == '*' && marks[7] == '+' && marks[8] == '-'
            && marks[9] == '.' && marks[10] == '^' && marks[11] == '_' && marks[12] == '`'
            && marks[13] == '|' && marks[14] == '~');
    }
    if forall|i: int|
        0 <= i < text.len() ==> crate::runtime::materialization::is_name_char(#[trigger] text[i]) {
        assert forall|c: char| #[trigger]
            text.contains(c) implies 97 <= c as u32 <= 122 || 65 <= c as u32 <= 90 || 48 <= c as u32 <= 57
            || marks.contains(c) by {
            let i = choose|i: int| 0 <= i < text.len() && text[i] == c;
            assert(crate::runtime::materialization::is_name_char(text[i]));
        }
    }
    if is_token(text) {
        assert forall|i: int|
            0 <= i < text.len() implies crate::runtime::materialization::is_name_char(
            #[trigger] text[i],
        ) by {
            assert(text.contains(text[i]));
        }
    }
}

/// What a failure on the way was: only one that touched the wire is something, an expired time is
/// told by the phase that it expired in, and a connection that could not be made is told from one
/// that took too long.
pub proof fn failures_on_the_way_are_told_by_phase(
    class: CoreAttemptFailureClass,
    timeout: Option<AttemptTimeoutKind>,
    r: Option<RawAttemptFailure>,
)
    requires
        call_ensures(mechanical_failure, (class, timeout), r),
    ensures
        r is None <==> class is Credential || class is Dns || class is Materialization || class
            is AttemptRequestFilter,
        r == Some(RawAttemptFailure::Disconnect) <==> class is Transport,
        r == Some(RawAttemptFailure::Connect) <==> class is Connect && timeout != Some(
            AttemptTimeoutKind::Connect,
        ),
        (r matches Some(RawAttemptFailure::Timeout { phase }) && phase is Connect) <==> class
            is Connect && timeout == Some(AttemptTimeoutKind::Connect),
        (r matches Some(RawAttemptFailure::Timeout { phase }) && phase is RequestWrite) <==> class
            is RequestWrite,
        (r matches Some(RawAttemptFailure::Timeout { phase }) && phase is FirstByte) <==> class
            is FirstByte,
        (r matches Some(RawAttemptFailure::Timeout { phase }) && phase is StreamIdle) <==> class
            is StreamIdle,
        (r matches Some(RawAttemptFailure::Timeout { phase }) && phase is Overall) <==> class
            is AttemptDeadline,
{
}

/// A failure is classified by the errors that its connector tells apart: as typed as the profile
/// says, and a delay only where a header for it is named. A profile that is not sealed fails.
pub proof fn failures_are_classified_by_their_profile(
    profile: &CandidateProtocolProfile,
    class: CoreAttemptFailureClass,
    timeout: Option<AttemptTimeoutKind>,
    r: Result<Option<(RawAttemptFailure, ConnectorErrorProfile)>, String>,
    raw: Option<RawAttemptFailure>,
)
    requires
        call_ensures(mechanical_failure_to_classify, (profile, class, timeout), r),
        call_ensures(mechanical_failure, (class, timeout), raw),
    ensures
        raw is None ==> r matches Ok(None),
        raw is Some && (profile.connector.errors is None || is_blank(profile.adapter_revision@)
            || is_blank(profile.serializer_revision@) || is_blank(profile.decoder_revision@)
            || profile.capability.upstream_protocol != profile.connector.upstream_protocol
            || !profile.connector.critical_facts_exact || !profile.provider_path_exact
            || !profile.reasoning_valid) ==> r is Err,
        r matches Ok(Some(pair)) ==> {
            let errors = profile.connector.errors->0;
            &&& Some(pair.0) == raw
            &&& profile.connector.errors is Some
            &&& pair.1.http_status_typed == errors.http_status_typed
            &&& pair.1.stream_error_typed == errors.sse_error_typed
            &&& pair.1.retry_after_typed <==> errors.retry_after_header is Some
        },
{
}

} // verus!
