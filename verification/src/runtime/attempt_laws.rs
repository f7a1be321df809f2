//! The walk of an attempt, told by what each step is asked for and what it is asked with.

use vstd::prelude::*;
use crate::text::{after_prefix, views_of};
use crate::uri::read_authority;
use super::attempt::{next_step, AttemptAnswers, AttemptContext, MaterializationStep};
use super::materialization::{candidate_at, LeaseOutcome};
use super::profile::AuthenticationSemantics;
use super::selection::DecisionCandidateAuthority;
use super::state::{PermitAvailability, StateKeyView};

verus! {

/// Whether an attempt is one that leases a credential: its profile authenticates, and its
/// reference names a credential.
pub open spec fn leases(context: AttemptContext, answers: AttemptAnswers) -> bool {
    answers.sealed matches Some(Some(sealed)) && {
        &&& sealed.execution.protocol_profile.connector.authentication == Some(
            AuthenticationSemantics::Required,
        )
        &&& after_prefix(context.credential_ref@, "credential/none/"@) is None
    }
}

/// Whether everything up to the permit of the binding was answered well.
pub open spec fn is_permitted(answers: AttemptAnswers) -> bool {
    &&& answers.sealed matches Some(Some(_))
    &&& answers.template matches Some(Some(_))
    &&& answers.codecs == Some(true)
    &&& answers.buffers matches Some(Ok(_))
    &&& answers.binding_permit matches Some(Ok(PermitAvailability::Permit(_)))
}

/// Whether an attempt that leases a credential has it, and its permit.
pub open spec fn has_credential(context: AttemptContext, answers: AttemptAnswers) -> bool {
    &&& answers.lease_target matches Some(Some(_))
    &&& leases(context, answers) ==> (answers.lease matches Some(LeaseOutcome::Leased(lease))
        && lease.credential_ref@ == context.credential_ref@) && (
    answers.credential_permit matches Some(Ok(PermitAvailability::Permit(_))))
}

/// Whether an attempt knows where to go: a bridge to its own address, any other where its plan says
/// or where a lookup found it.
pub open spec fn has_target(context: AttemptContext, answers: AttemptAnswers) -> bool {
    if answers.sealed->0->0.execution.connector_runtime is CpaBridge {
        leases(context, answers) && answers.lease->0->Leased_0.transport_override is Some
            && answers.override_is_valid == Some(true)
    } else {
        (leases(context, answers) ==> answers.lease->0->Leased_0.transport_override is None) && (
        context.target.unresolved_authority is Some ==> (answers.looked_up matches Some(Some(found))
            && found@.len() > 0))
    }
}

/// The walk asks for one thing after the other: each is asked for only while it is not answered,
/// and only when everything before it was answered well.
pub proof fn steps_come_one_after_the_other(
    context: &AttemptContext,
    answers: &AttemptAnswers,
    now: u128,
    r: MaterializationStep,
)
    requires
        call_ensures(next_step, (context, answers, now), r),
    ensures
        !(r is Fail) ==> context.is_active,
        r is ReadExecution ==> answers.sealed is None,
        r is ProjectTemplate ==> (answers.sealed matches Some(Some(_))) && answers.template is None,
        r is OpenCodecs ==> (answers.template matches Some(Some(_))) && answers.codecs is None,
        r is ReserveBuffers ==> answers.codecs == Some(true) && answers.buffers is None,
        r is AcquireBindingPermit ==> (answers.buffers matches Some(Ok(_)))
            && answers.binding_permit is None,
        r is IdentifyLeaseTarget ==> is_permitted(*answers) && answers.lease_target is None,
        r is LeaseCredential ==> is_permitted(*answers) && (answers.lease_target matches Some(
            Some(_),
        )) && leases(*context, *answers) && answers.lease is None,
        r is AcquireCredentialPermit ==> is_permitted(*answers) && leases(*context, *answers) && (
        answers.lease matches Some(LeaseOutcome::Leased(lease)) && lease.credential_ref@
            == context.credential_ref@) && answers.credential_permit is None,
        r is CheckOverride ==> is_permitted(*answers) && has_credential(*context, *answers)
            && leases(*context, *answers) && answers.override_is_valid is None,
        r is LookUp ==> is_permitted(*answers) && has_credential(*context, *answers)
            && answers.looked_up is None && context.target.unresolved_authority is Some,
        r is ValidatePermits ==> is_permitted(*answers) && has_credential(*context, *answers)
            && has_target(*context, *answers) && answers.permits_are_valid is None,
        r is ReserveProjection || r is OpenBody || r is Sign || r is Ready ==> is_permitted(
            *answers,
        ) && has_credential(*context, *answers) && has_target(*context, *answers)
            && answers.permits_are_valid == Some(true),
        r is ReserveProjection ==> answers.reserved is None,
        r is OpenBody ==> answers.body is None,
        r is Sign ==> (answers.body matches Some(Ok(_))) && leases(*context, *answers)
            && answers.signed is None,
        r is Ready ==> (answers.body matches Some(Ok(_))) && (leases(*context, *answers) ==> (
        answers.signed matches Some(Some(_)))),
{
    assert(r@ is Fail == r is Fail);
}

/// An attempt for which everything was answered well goes on to its end: while something is not
/// answered it is asked for, in its order, and when all is, the request is ready.
pub proof fn good_answers_lead_to_a_request(
    context: &AttemptContext,
    answers: &AttemptAnswers,
    now: u128,
    r: MaterializationStep,
)
    requires
        call_ensures(next_step, (context, answers, now), r),
        !(r is Fail),
        answers.sealed matches Some(Some(_)),
    ensures
        answers.template is None ==> r is ProjectTemplate,
        answers.template is Some && answers.codecs is None ==> r is OpenCodecs,
        answers.template is Some && answers.codecs is Some && answers.buffers is None ==> r
            is ReserveBuffers,
        answers.template is Some && answers.codecs is Some && answers.buffers is Some
            && answers.binding_permit is None ==> r is AcquireBindingPermit,
        is_permitted(*answers) && answers.lease_target is None ==> r is IdentifyLeaseTarget,
        is_permitted(*answers) && answers.lease_target is Some && leases(*context, *answers)
            && answers.lease is None ==> r is LeaseCredential,
        is_permitted(*answers) && answers.lease_target is Some && leases(*context, *answers)
            && answers.lease is Some && answers.credential_permit is None ==> r
            is AcquireCredentialPermit,
        is_permitted(*answers) && has_credential(*context, *answers) && has_target(
            *context,
            *answers,
        ) && answers.permits_are_valid is None ==> r is ValidatePermits,
        is_permitted(*answers) && has_credential(*context, *answers) && has_target(
            *context,
            *answers,
        ) && answers.permits_are_valid is Some && answers.reserved is Some && answers.body is None
            ==> r is OpenBody,
        is_permitted(*answers) && has_credential(*context, *answers) && has_target(
            *context,
            *answers,
        ) && answers.permits_are_valid is Some && answers.reserved is Some && answers.body is Some
            && leases(*context, *answers) && answers.signed is None ==> r is Sign,
        is_permitted(*answers) && has_credential(*context, *answers) && has_target(
            *context,
            *answers,
        ) && answers.permits_are_valid is Some && answers.reserved is Some && answers.body is Some
            && (leases(*context, *answers) ==> answers.signed is Some) ==> r is Ready,
{
    assert(r@ is Fail == r is Fail);
}

/// An answer that is no good ends the attempt, and says why: what is wrong with the candidate or
/// its projection is a protocol failure, what the authority refuses is an authority failure, and
/// what the runtime state fails is marked as such.
pub proof fn bad_answers_end_the_attempt(
    context: &AttemptContext,
    answers: &AttemptAnswers,
    now: u128,
    r: MaterializationStep,
)
    requires
        call_ensures(next_step, (context, answers, now), r),
    ensures
        !context.is_active ==> fails_with(r, "authority_failed"@, false),
        context.is_active && (answers.sealed matches Some(None)) ==> fails_with(
            r,
            "protocol_failed"@,
            false,
        ),
        answers.template matches Some(None) ==> r is Fail || r is ReadExecution,
        answers.codecs == Some(false) ==> r is Fail || r is ReadExecution || r is ProjectTemplate,
        r matches MaterializationStep::Fail { error, marks } ==> (marks ==> error@
            == "runtime_state_authority_failed"@ && ((answers.binding_permit matches Some(Err(_)))
            || (answers.credential_permit matches Some(Err(_))) || answers.permits_are_valid
            == Some(false))),
        (answers.binding_permit matches Some(Err(_))) && (answers.buffers matches Some(Ok(_)))
            && answers.codecs == Some(true) && (answers.template matches Some(Some(_))) && (
        answers.sealed is Some) && context.is_active ==> r is Fail,
        answers.permits_are_valid == Some(false) && is_permitted(*answers) && has_credential(
            *context,
            *answers,
        ) && has_target(*context, *answers) ==> r is Fail,
        is_permitted(*answers) && leases(*context, *answers) && (answers.lease_target matches Some(
            Some(_),
        )) && (answers.lease matches Some(lease) && (lease is Failed || lease is Exhausted || (
        lease matches LeaseOutcome::Leased(own) && own.credential_ref@
            != context.credential_ref@))) ==> r is Fail,
        r matches MaterializationStep::Fail { error, marks } && error@ == "credential_exhausted"@
            && !(answers.buffers matches Some(Err(_))) && !(answers.reserved matches Some(Err(_)))
            && !(answers.body matches Some(Err(_))) ==> (answers.lease matches Some(lease) && lease
            is Exhausted),
{
    lemma_errors();
    assert(r@ is Fail == r is Fail);
}

pub open spec fn fails_with(r: MaterializationStep, error: Seq<char>, marked: bool) -> bool {
    r matches MaterializationStep::Fail { error: told, marks } && told@ == error && marks == marked
}

proof fn lemma_errors()
    ensures
        "credential_exhausted"@ != "authority_failed"@,
        "credential_exhausted"@ != "protocol_failed"@,
        "credential_exhausted"@ != "dns_failed"@,
        "credential_exhausted"@ != "runtime_state_authority_failed"@,
        "credential_exhausted"@ != "binding_probe_busy"@,
        "credential_exhausted"@ != "credential_probe_busy"@,
        "credential_exhausted"@ != "binding_disabled"@,
        "credential_exhausted"@ != "credential_disabled"@,
        forall|rest: Seq<char>| #[trigger]
            ("binding_cooling_down:"@ + rest) != "credential_exhausted"@,
        forall|rest: Seq<char>| #[trigger]
            ("credential_cooling_down:"@ + rest) != "credential_exhausted"@,
{
    reveal_strlit("credential_exhausted");
    reveal_strlit("authority_failed");
    reveal_strlit("protocol_failed");
    reveal_strlit("dns_failed");
    reveal_strlit("runtime_state_authority_failed");
    reveal_strlit("binding_probe_busy");
    reveal_strlit("credential_probe_busy");
    reveal_strlit("binding_disabled");
    reveal_strlit("credential_disabled");
    reveal_strlit("binding_cooling_down:");
    reveal_strlit("credential_cooling_down:");
    assert("credential_exhausted"@.len() == 20);
    assert("authority_failed"@.len() == 16);
    assert("protocol_failed"@.len() == 15);
    assert("dns_failed"@.len() == 10);
    assert("runtime_state_authority_failed"@.len() == 30);
    assert("binding_probe_busy"@.len() == 18);
    assert("credential_probe_busy"@.len() == 21);
    assert("binding_disabled"@.len() == 16);
    assert("credential_disabled"@.len() == 19);
    assert forall|rest: Seq<char>| #[trigger]
        ("binding_cooling_down:"@ + rest) != "credential_exhausted"@ by {
        assert(("binding_cooling_down:"@ + rest).len() >= 21);
    }
    assert forall|rest: Seq<char>| #[trigger]
        ("credential_cooling_down:"@ + rest) != "credential_exhausted"@ by {
        assert(("credential_cooling_down:"@ + rest).len() >= 24);
    }
}

/// What each step is asked with is the attempt's own: the permit of its target, the permit of the
/// key that was leased, the permits that it holds, what its projection retains, and a body that is
/// written in pieces no larger than the plan and the writer allow.
pub proof fn steps_ask_for_the_attempts_own(
    context: &AttemptContext,
    answers: &AttemptAnswers,
    now: u128,
    r: MaterializationStep,
)
    requires
        call_ensures(next_step, (context, answers, now), r),
    ensures
        r matches MaterializationStep::OpenCodecs { needs_renderer } ==> {
            let profile = answers.sealed->0->0.execution.protocol_profile;
            needs_renderer <==> (context.logical.ir matches Some(ir) && ir.stream)
                && profile.ingress_protocol != profile.capability.upstream_protocol
        },
        r matches MaterializationStep::AcquireBindingPermit(key) ==> (
        key@ matches StateKeyView::Binding { stable_target } && stable_target
            == context.stable_target@),
        r matches MaterializationStep::AcquireCredentialPermit(key) ==> (
        key@ matches StateKeyView::Credential {
            stable_target,
            credential_ref,
            key_id,
            generation,
        } && stable_target == context.stable_target@ && credential_ref == context.credential_ref@
            && key_id == answers.lease->0->Leased_0.key_id@ && generation
            == answers.lease->0->Leased_0.generation),
        r matches MaterializationStep::IdentifyLeaseTarget(target) ==> {
            let sealed = answers.sealed->0->0;
            &&& target is Execution <==> sealed.execution.connector_runtime is CpaBridge
            &&& target is Profile <==> sealed.execution.connector_runtime is BuiltinNative
                && sealed.native_target is Some
        },
        r matches MaterializationStep::CheckOverride(target) ==> {
            let own = answers.lease->0->Leased_0.transport_override;
            &&& own is Some
            &&& target.addresses@ == seq![own->0.address]
            &&& target.authority@ == own->0.address_text@
            &&& target.scheme is Http
            &&& target.sni is None
        },
        r matches MaterializationStep::LookUp { host, port } ==> {
            let authority = read_authority(context.target.unresolved_authority->0@);
            &&& authority is Some
            &&& host@ == authority->0.host
            &&& match authority->0.port {
                Some(own) => port == own,
                None => if context.target.scheme is Https {
                    port == 443
                } else {
                    port == 80
                },
            }
        },
        r matches MaterializationStep::ValidatePermits(permits) ==> {
            &&& answers.binding_permit matches Some(Ok(PermitAvailability::Permit(own)))
                && permits.binding == own
            &&& permits.credential is Some <==> leases(*context, *answers)
            &&& permits.credential matches Some(held) ==> (answers.credential_permit matches Some(
                Ok(PermitAvailability::Permit(own)),
            ) && held == own)
        },
        r matches MaterializationStep::ReserveProjection(bytes) ==> bytes > 0
            && answers.template->0->0.retained == Some(Some(bytes)),
        r matches MaterializationStep::OpenBody { quantum } ==> quantum <= context.write_quantum
            && quantum <= context.max_chunk_bytes && (quantum == context.write_quantum || quantum
            == context.max_chunk_bytes),
{
    if let MaterializationStep::CheckOverride(target) = r {
        assert(target@.sni is None);
    }
}

/// A credential is asked for by what was sealed, field by field: the destination, the connector,
/// the models, the target with its digest and epochs, the profile's digest and path; no key is
/// left out.
pub proof fn leases_ask_for_what_was_sealed(
    context: &AttemptContext,
    answers: &AttemptAnswers,
    now: u128,
    r: MaterializationStep,
)
    requires
        call_ensures(next_step, (context, answers, now), r),
        r is LeaseCredential,
    ensures
        ({
            let request = r->LeaseCredential_0;
            let sealed = answers.sealed->0->0;
            let execution = sealed.execution;
            let facts = answers.lease_target->0->0;
            &&& request.stable_binding_id@ == context.stable_target@
            &&& request.credential_ref@ == context.credential_ref@
            &&& request.credential_destination_ref@ == execution.credential_destination_ref@
            &&& request.excluded_key_ids@.len() == 0
            &&& request.connector_runtime == execution.connector_runtime
            &&& request.connector_id@ == execution.protocol_profile.connector.connector_id@
            &&& request.upstream_protocol
                == execution.protocol_profile.capability.upstream_protocol
            &&& request.upstream_model_id@ == execution.upstream_model_id@
            &&& request.native_transport_model@ == execution.native_transport_model@
            &&& request.operational_target_digest@ == facts.digest@
            &&& request.runtime_epoch == execution.operational_target.runtime_epoch
            &&& request.target_epoch == execution.operational_target.target_epoch
            &&& request.protocol_profile_digest@ == execution.profile_digest@
            &&& request.request_path@ == execution.protocol_profile.connector.request_path@
            &&& request.authentication == execution.protocol_profile.connector.authentication
            &&& execution.connector_runtime is CpaBridge ==> request.operational_target@
                == execution.operational_target.uri@ && request.logical_endpoint@
                == execution.logical_endpoint@
            &&& execution.connector_runtime is BuiltinNative ==> request.logical_endpoint@
                == request.operational_target@ && request.operational_target@ == (
            match sealed.native_target {
                Some(own) => own.operational_target.uri@,
                None => facts.uri@,
            })
        }),
{
    let request = r->LeaseCredential_0;
    assert(request@.excluded_key_ids == views_of(request.excluded_key_ids@));
    assert(request@.excluded_key_ids.len() == request.excluded_key_ids@.len());
}

/// A ready request is the projected one, under the seals of its candidate. It goes to the address
/// that a bridge was leased, or where the plan says, at the addresses that were found.
pub proof fn requests_are_what_was_prepared(
    context: &AttemptContext,
    answers: &AttemptAnswers,
    now: u128,
    r: MaterializationStep,
    at: int,
)
    requires
        call_ensures(next_step, (context, answers, now), r),
        r is Ready,
        0 <= at < context.logical.frozen_candidates@.len(),
        context.logical.frozen_candidates@[at].binding == context.binding,
        forall|i: int|
            0 <= i < at ==> (#[trigger] context.logical.frozen_candidates@[i]).binding
                != context.binding,
    ensures
        ({
            let request = r->Ready_0;
            let candidate = context.logical.frozen_candidates@[at];
            let redirect = if leases(*context, *answers) {
                answers.lease->0->Leased_0.transport_override
            } else {
                None
            };
            &&& request.path@ == answers.template->0->0.path@
            &&& candidate.stable_target@ == context.stable_target@
            &&& request.headers@["x-hiroute-profile-digest"@] == candidate.profile_digest->0@
            &&& request.headers@["x-hiroute-reason-ledger-id"@]
                == candidate.reason_ledger_identity->0@
            &&& match redirect {
                Some(own) => request.target.addresses@ == seq![own.address]
                    && request.target.authority@ == own.address_text@ && request.target.scheme
                    is Http && request.target.sni is None,
                None => request.target.authority@ == context.target.authority@
                    && request.target.scheme == context.target.scheme && (request.target.sni is Some
                    <==> context.target.sni is Some) && request.target.unresolved_authority is None
                    && request.target.addresses@ == (if context.target.unresolved_authority is Some {
                    answers.looked_up->0->0@
                } else {
                    context.target.addresses@
                }),
            }
        }),
{
    lemma_first(context.logical.frozen_candidates@, context.binding, at);
    reveal_strlit("x-hiroute-profile-digest");
    reveal_strlit("x-hiroute-reason-ledger-id");
    assert("x-hiroute-profile-digest"@.len() != "x-hiroute-reason-ledger-id"@.len());
    let request = r->Ready_0;
    assert(request@.target == request.target@);
    assert(request@.target.sni is Some <==> request.target.sni is Some);
    assert(request@.target.unresolved_authority is Some
        <==> request.target.unresolved_authority is Some);
}

proof fn lemma_first(
    candidates: Seq<DecisionCandidateAuthority>,
    binding: super::selection::ResolvedTargetBindingId,
    at: int,
)
    requires
        0 <= at < candidates.len(),
        candidates[at].binding == binding,
        forall|i: int| 0 <= i < at ==> (#[trigger] candidates[i]).binding != binding,
    ensures
        candidate_at(candidates, binding) == Some(at),
    decreases candidates.len(),
{
    if at > 0 {
        assert(candidates[0].binding != binding);
        let rest = candidates.skip(1);
        assert forall|i: int| 0 <= i < at - 1 implies (#[trigger] rest[i]).binding != binding by {
            assert(rest[i] == candidates[i + 1]);
        }
        lemma_first(rest, binding, at - 1);
    }
}

} // verus!
