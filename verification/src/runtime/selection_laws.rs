//! What a decision does to a request, told by the request alone: where its cursor goes, when it
//! ends, and what it advises when it does.

use vstd::prelude::*;
use super::facts::{
    Disposition, ProviderClassificationFacts, RetryabilityFact, CLOCK_LIMIT_NANOS,
};
use super::selection::{
    announced_seconds, candidates_match, fallback_is_second, first_preference, no_progress,
    progress_after, AttemptCleanupOutcome, AttemptDownstreamOutcome, AttemptFailureFacts,
    AttemptStreamOutcome, AttemptTerminationReason, CompletedAttemptObservation,
    CoreAttemptFailureClass, DecisionCandidateAuthority, DecisionStep, LocalReply,
    ProductionDecisionSession, ResolvedTargetBindingId, SelectedGatewayAttempt, SelectionProgress,
    SelectionRequest,
};

verus! {

/// Whether an attempt is the one that the cursor stands on: its binding is that of the candidate
/// and its credential the one under the cursor.
pub open spec fn is_under_cursor(
    session: ProductionDecisionSession,
    selected: SelectedGatewayAttempt,
) -> bool {
    let at = session.progress.candidate_index as int;
    let key = session.progress.credential_index as int;
    &&& at < session.candidates@.len()
    &&& session.candidates@[at].binding == selected.binding
    &&& key < session.candidates@[at].credential_refs@.len()
    &&& session.candidates@[at].credential_refs@[key]@ == selected.credential_ref@
}

/// Whether an error class is a given word.
pub open spec fn class_is(class: Option<String>, word: Seq<char>) -> bool {
    class matches Some(text) && text@ == word
}

/// Whether a failure reports a given error class.
pub open spec fn reports(failure: AttemptFailureFacts, word: Seq<char>) -> bool {
    failure.provider matches Some(provider) && class_is(provider.error_class, word)
}

/// Whether the request may go back to the model that it was switched from: the attempt was made on
/// the first candidate, and the second is the one to go back to.
pub open spec fn can_go_back(
    session: ProductionDecisionSession,
    selected: SelectedGatewayAttempt,
) -> bool {
    &&& selected.attempt_id > 0
    &&& session.progress.candidate_index == 0
    &&& session.candidates@.len() >= 2
    &&& session.candidates@[0].binding == selected.binding
    &&& session.switch_fallback == Some(session.candidates@[1].binding)
}

/// Whether the cursor has not moved.
pub open spec fn same_cursor(a: SelectionProgress, b: SelectionProgress) -> bool {
    a.candidate_index == b.candidate_index && a.credential_index == b.credential_index
}

/// Whether the cursor stands on the first credential of the candidate that follows.
pub open spec fn is_on_next_candidate(after: SelectionProgress, before: SelectionProgress) -> bool {
    after.candidate_index == before.candidate_index + 1 && after.credential_index == 0
}

/// A retryable response goes on with what is left: a refused or used-up credential with the next
/// one of its candidate, while there is one, and everything else with the first credential of the
/// next candidate. It ends the request only where no candidate is left.
pub proof fn retryable_responses_go_on_with_what_is_left(
    session: ProductionDecisionSession,
    selected: SelectedGatewayAttempt,
    facts: ProviderClassificationFacts,
)
    requires
        is_under_cursor(session, selected),
        facts.retryability == RetryabilityFact::Retryable,
    ensures
        ({
            let (decision, after) = session.decided(selected, facts);
            let before = session.progress;
            let keys = session.candidates@[before.candidate_index as int].credential_refs@.len();
            let of_key = class_is(facts.error_class, "credential"@) || class_is(
                facts.error_class,
                "quota"@,
            );
            if of_key && before.credential_index + 1 < keys {
                &&& decision == Ok::<_, Seq<char>>(Disposition::Continue)
                &&& after.candidate_index == before.candidate_index
                &&& after.credential_index == before.credential_index + 1
            } else {
                &&& is_on_next_candidate(after, before)
                &&& decision == Ok::<_, Seq<char>>(
                    if before.candidate_index + 1 < session.candidates@.len() {
                        Disposition::Continue
                    } else {
                        Disposition::Terminate
                    },
                )
            }
        }),
{
    assert(session.candidates.len() == session.candidates@.len());
}

/// A response that is not retryable and holds no error is accepted where the cursor stands; one
/// with an error ends the request there, unless the request can go back to the model that it was
/// switched from, which it then does.
pub proof fn final_responses_end_or_go_back(
    session: ProductionDecisionSession,
    selected: SelectedGatewayAttempt,
    facts: ProviderClassificationFacts,
)
    requires
        facts.retryability != RetryabilityFact::Retryable,
    ensures
        ({
            let (decision, after) = session.decided(selected, facts);
            if facts.error_class is None {
                &&& decision == Ok::<_, Seq<char>>(Disposition::Accept)
                &&& same_cursor(after, session.progress)
            } else if !can_go_back(session, selected) {
                &&& decision == Ok::<_, Seq<char>>(Disposition::Terminate)
                &&& same_cursor(after, session.progress)
            } else if is_under_cursor(session, selected) {
                &&& decision == Ok::<_, Seq<char>>(Disposition::Continue)
                &&& after.candidate_index == 1
                &&& after.credential_index == 0
            } else {
                decision is Err && same_cursor(after, session.progress)
            }
        }),
{
}

/// An attempt that the cursor does not stand on moves it nowhere: where its outcome would call for
/// a move, the decision is an error that says whether a candidate is left at all.
pub proof fn foreign_attempts_move_nothing(
    session: ProductionDecisionSession,
    selected: SelectedGatewayAttempt,
    facts: ProviderClassificationFacts,
    failure: AttemptFailureFacts,
    now: u128,
)
    requires
        !is_under_cursor(session, selected),
    ensures
        ({
            let exhausted = session.progress.candidate_index >= session.candidates@.len();
            let error = if exhausted {
                "selected candidate is outside the frozen closure"@
            } else {
                "selected credential is outside the current frozen cursor"@
            };
            let (decision, after) = session.decided(selected, facts);
            let (other, later) = session.decided_failure(selected, failure, now);
            &&& same_cursor(after, session.progress)
            &&& same_cursor(later, session.progress)
            &&& facts.retryability == RetryabilityFact::Retryable ==> decision == Err::<
                Disposition,
                _,
            >(error)
            &&& (failure.provider matches Some(provider) && provider.retryability
                == RetryabilityFact::Retryable) ==> other == Err::<Disposition, _>(error)
        }),
{
}

/// A decision on a response changes nothing that the request remembers of its blocks; it only
/// remembers that an attempt was made, where one was.
pub proof fn responses_leave_blocks_alone(
    session: ProductionDecisionSession,
    selected: SelectedGatewayAttempt,
    facts: ProviderClassificationFacts,
)
    ensures
        ({
            let before = session.progress;
            let after = session.decided(selected, facts).1;
            &&& after.temporary_block_seen == before.temporary_block_seen
            &&& after.probe_busy_seen == before.probe_busy_seen
            &&& after.earliest_retry_at == before.earliest_retry_at
            &&& after.non_temporary_block_seen == before.non_temporary_block_seen
            &&& after.upstream_attempted == (before.upstream_attempted || selected.attempt_id > 0)
        }),
{
}

/// A retryable failure goes on with what is left, as a retryable response does: a credential
/// failure with the next credential of its candidate, while there is one, and any other with the
/// next candidate. A block that ends by itself never ends the request, so that the request is asked
/// for its advice.
pub proof fn retryable_failures_go_on_with_what_is_left(
    session: ProductionDecisionSession,
    selected: SelectedGatewayAttempt,
    failure: AttemptFailureFacts,
    now: u128,
)
    requires
        is_under_cursor(session, selected),
        failure.provider matches Some(provider) && provider.retryability
            == RetryabilityFact::Retryable,
    ensures
        ({
            let (decision, after) = session.decided_failure(selected, failure, now);
            let before = session.progress;
            let keys = session.candidates@[before.candidate_index as int].credential_refs@.len();
            let block = reports(failure, "runtime_state_cooling_down"@) || reports(
                failure,
                "runtime_state_probe_busy"@,
            );
            if failure.class == CoreAttemptFailureClass::Credential && before.credential_index + 1
                < keys {
                &&& decision == Ok::<_, Seq<char>>(Disposition::Continue)
                &&& after.candidate_index == before.candidate_index
                &&& after.credential_index == before.credential_index + 1
            } else {
                &&& is_on_next_candidate(after, before)
                &&& decision == Ok::<_, Seq<char>>(
                    if block || before.candidate_index + 1 < session.candidates@.len() {
                        Disposition::Continue
                    } else {
                        Disposition::Terminate
                    },
                )
            }
        }),
{
    assert(session.candidates.len() == session.candidates@.len());
}

/// A failure that is not retryable ends the request where the cursor stands, unless its request
/// had been sent and can go back to the model that it was switched from, which it then does.
pub proof fn final_failures_end_or_go_back(
    session: ProductionDecisionSession,
    selected: SelectedGatewayAttempt,
    failure: AttemptFailureFacts,
    now: u128,
)
    requires
        !(failure.provider matches Some(provider) && provider.retryability
            == RetryabilityFact::Retryable),
    ensures
        ({
            let (decision, after) = session.decided_failure(selected, failure, now);
            if !(failure.request_committed && can_go_back(session, selected)) {
                &&& decision == Ok::<_, Seq<char>>(Disposition::Terminate)
                &&& same_cursor(after, session.progress)
            } else if is_under_cursor(session, selected) {
                &&& decision == Ok::<_, Seq<char>>(Disposition::Continue)
                &&& after.candidate_index == 1
                &&& after.credential_index == 0
            } else {
                decision is Err && same_cursor(after, session.progress)
            }
        }),
{
}

/// What a failure leaves in the memory of a request: a temporary block before any attempt counts as
/// such, with the earliest instant at which one of them ends; any other failure rules advice out.
pub proof fn failures_are_remembered(
    session: ProductionDecisionSession,
    selected: SelectedGatewayAttempt,
    failure: AttemptFailureFacts,
    now: u128,
)
    ensures
        ({
            let before = session.progress;
            let after = session.decided_failure(selected, failure, now).1;
            let probing = reports(failure, "runtime_state_probe_busy"@);
            let block = selected.attempt_id == 0 && (probing || reports(
                failure,
                "runtime_state_cooling_down"@,
            ));
            &&& after.upstream_attempted == (before.upstream_attempted || selected.attempt_id > 0)
            &&& after.temporary_block_seen == (before.temporary_block_seen || block)
            &&& after.non_temporary_block_seen == (before.non_temporary_block_seen || !block)
            &&& after.probe_busy_seen == (before.probe_busy_seen || (block && probing))
            &&& !block || failure.provider->0.retry_after is None ==> after.earliest_retry_at
                == before.earliest_retry_at
            &&& block && (failure.provider->0.retry_after matches Some(delay) && now + delay
                <= CLOCK_LIMIT_NANOS) ==> {
                let ends = now + failure.provider->0.retry_after->0;
                &&& after.earliest_retry_at matches Some(at) && at <= ends
                &&& after.earliest_retry_at->0 == ends || after.earliest_retry_at
                    == before.earliest_retry_at
                &&& before.earliest_retry_at matches Some(at) ==> after.earliest_retry_at->0 <= at
            }
        }),
{
}

/// The announced delay is the least number of whole seconds, one at least, that covers the time
/// which remains, as far as the number can be told.
pub proof fn announced_delays_cover_the_rest(remaining: u128, other: u64)
    ensures
        announced_seconds(remaining) >= 1,
        announced_seconds(remaining) < u64::MAX ==> announced_seconds(remaining) * 1_000_000_000
            >= remaining,
        other >= 1 && other * 1_000_000_000 >= remaining ==> announced_seconds(remaining) <= other,
{
    let covering = (remaining + 999_999_999) / 1_000_000_000;
    assert(covering * 1_000_000_000 >= remaining);
    assert((covering - 1) * 1_000_000_000 < remaining || remaining == 0);
}

/// The advice of a request whose blocks were all temporary: a running probe asks to come back
/// after a second; otherwise the delay covers the time until the first block ends, and is a second
/// where that is over or not known.
pub proof fn advice_covers_the_first_end(session: ProductionDecisionSession, now: u128)
    ensures
        ({
            let p = session.progress;
            let advice = session.exhaustion_advice(now);
            &&& advice is Some <==> p.temporary_block_seen && !p.non_temporary_block_seen
                && !p.upstream_attempted
            &&& advice matches Some((code, seconds)) ==> if p.probe_busy_seen {
                code == "RECOVERY_PROBE_IN_PROGRESS"@ && seconds == 1
            } else {
                &&& code == "CANDIDATES_COOLING_DOWN"@
                &&& p.earliest_retry_at is None ==> seconds == 1
                &&& p.earliest_retry_at matches Some(at) ==> {
                    &&& at <= now ==> seconds == 1
                    &&& at > now && seconds < u64::MAX ==> {
                        &&& now + seconds * 1_000_000_000 >= at
                        &&& now + (seconds - 1) * 1_000_000_000 < at
                    }
                }
            }
        }),
{
    if let Some(at) = session.progress.earliest_retry_at {
        if at > now {
            let rest = (at - now) as u128;
            let covering = (rest + 999_999_999) / 1_000_000_000;
            assert(covering * 1_000_000_000 >= rest);
            assert((covering - 1) * 1_000_000_000 < rest);
        }
    }
}

/// Over all the decisions of a request, in any order: the advice waits for the first end among the
/// temporary blocks that told one, and for no other.
pub proof fn advice_waits_for_the_first_end(
    session: ProductionDecisionSession,
    steps: Seq<DecisionStep>,
)
    requires
        session.progress == no_progress(),
    ensures
        ({
            let earliest = progress_after(session, steps).earliest_retry_at;
            &&& forall|i: int|
                0 <= i < steps.len() && (block_end(#[trigger] steps[i]) matches Some(_)) ==> (
                earliest matches Some(at) && at <= block_end(steps[i])->0)
            &&& earliest matches Some(at) ==> exists|i: int|
                0 <= i < steps.len() && block_end(#[trigger] steps[i]) == Some(at as int)
        }),
    decreases steps.len(),
{
    if steps.len() > 0 {
        let init = steps.drop_last();
        let last = steps.last();
        advice_waits_for_the_first_end(session, init);
        let before = progress_after(session, init).earliest_retry_at;
        let earliest = progress_after(session, steps).earliest_retry_at;
        assert forall|i: int| 0 <= i < init.len() implies init[i] == #[trigger] steps[i] by {}
        assert(steps[steps.len() - 1] == last);
        assert(earliest == (match (block_end(last), before) {
            (Some(end), Some(at)) => Some(
                if at < end {
                    at
                } else {
                    end as u128
                },
            ),
            (Some(end), None) => Some(end as u128),
            (None, before) => before,
        }));
        assert forall|i: int|
            0 <= i < steps.len() && (block_end(#[trigger] steps[i]) matches Some(_)) implies (
        earliest matches Some(at) && at <= block_end(steps[i])->0) by {
            if i < init.len() {
                assert(init[i] == steps[i]);
            }
        }
        if earliest is Some && earliest != before {
            assert(block_end(steps[steps.len() - 1]) == Some(earliest->0 as int));
        } else if let Some(at) = before {
            let i = choose|i: int|
                0 <= i < init.len() && block_end(#[trigger] init[i]) == Some(at as int);
            assert(block_end(steps[i]) == Some(at as int));
        }
    }
}

/// When a temporary block ends that was reported before an attempt, where it told so.
pub open spec fn block_end(step: DecisionStep) -> Option<int> {
    match step {
        DecisionStep::Failure { selected, failure, now } => if selected.attempt_id == 0 && (reports(
            failure,
            "runtime_state_cooling_down"@,
        ) || reports(failure, "runtime_state_probe_busy"@)) {
            match failure.provider->0.retry_after {
                Some(delay) => if now + delay <= CLOCK_LIMIT_NANOS {
                    Some(now + delay)
                } else {
                    None
                },
                None => None,
            }
        } else {
            None
        },
        DecisionStep::Response { .. } => None,
    }
}

/// The candidates of a session are the authorized ones, one for each binding of the request and in
/// its order; a fallback is the second of them and differs from the first.
pub proof fn sessions_take_the_authorized_order(
    candidates: Seq<DecisionCandidateAuthority>,
    bindings: Seq<ResolvedTargetBindingId>,
    fallback: ResolvedTargetBindingId,
)
    ensures
        candidates_match(candidates, bindings) <==> candidates.len() > 0 && candidates.map_values(
            |candidate: DecisionCandidateAuthority| candidate.binding,
        ) == bindings,
        fallback_is_second(candidates, fallback) <==> candidates.len() >= 2
            && candidates[1].binding == fallback && candidates[0].binding != fallback,
{
    let own = candidates.map_values(
        |candidate: DecisionCandidateAuthority| candidate.binding,
    );
    if candidates_match(candidates, bindings) {
        assert forall|i: int| 0 <= i < own.len() implies own[i] == bindings[i] by {
            assert(candidates[i].binding == bindings[i]);
        }
        assert(own =~= bindings);
    }
    if candidates.len() > 0 && own == bindings {
        assert forall|i: int| 0 <= i < candidates.len() implies (#[trigger] candidates[i]).binding
            == bindings[i] by {
            assert(own[i] == bindings[i]);
        }
    }
}

/// A hold is completed with the first preference of its list for the binding, and with none where
/// the list has none.
pub proof fn holds_keep_the_first_preference(
    preferences: Seq<(ResolvedTargetBindingId, u64)>,
    binding: ResolvedTargetBindingId,
)
    ensures
        match first_preference(preferences, binding) {
            Some(value) => exists|i: int|
                0 <= i < preferences.len() && #[trigger] preferences[i] == (binding, value)
                    && forall|j: int| 0 <= j < i ==> (#[trigger] preferences[j]).0 != binding,
            None => forall|j: int|
                0 <= j < preferences.len() ==> (#[trigger] preferences[j]).0 != binding,
        },
    decreases preferences.len(),
{
    if preferences.len() > 0 {
        let rest = preferences.skip(1);
        assert forall|j: int| 1 <= j < preferences.len() implies #[trigger] preferences[j]
            == rest[j - 1] by {}
        if preferences[0].0 != binding {
            holds_keep_the_first_preference(rest, binding);
            if let Some(value) = first_preference(rest, binding) {
                let i = choose|i: int|
                    0 <= i < rest.len() && #[trigger] rest[i] == (binding, value) && forall|j: int|
                        0 <= j < i ==> (#[trigger] rest[j]).0 != binding;
                assert(preferences[i + 1] == (binding, value));
                assert forall|j: int| 0 <= j < i + 1 implies (#[trigger] preferences[j]).0
                    != binding by {
                    if j > 0 {
                        assert(rest[j - 1].0 != binding);
                    }
                }
            } else {
                assert forall|j: int| 0 <= j < preferences.len() implies (
                #[trigger] preferences[j]).0 != binding by {
                    if j > 0 {
                        assert(rest[j - 1].0 != binding);
                    }
                }
            }
        } else {
            assert(preferences[0] == (binding, preferences[0].1));
        }
    }
}

/// Only an accepted response that was whole, reached the client whole and was cleaned up after
/// completes a hold: whatever else differs in an observation rules it out.
pub proof fn only_whole_successes_complete_a_hold(observation: CompletedAttemptObservation)
    ensures
        observation.is_full_success() ==> {
            &&& observation.disposition == Disposition::Accept
            &&& observation.provider matches Some(facts) && class_is(
                facts.model_event,
                "response_complete"@,
            )
            &&& observation.failure is None
            &&& observation.stream == AttemptStreamOutcome::CompletedEos
            &&& observation.downstream == AttemptDownstreamOutcome::Completed
            &&& observation.cleanup == AttemptCleanupOutcome::Completed
            &&& observation.termination_reason == AttemptTerminationReason::AcceptedEos
        },
        !observation.is_full_success() ==> observation.disposition != Disposition::Accept
            || observation.provider is None || !class_is(
            observation.provider->0.model_event,
            "response_complete"@,
        ) || observation.failure is Some || observation.stream
            != AttemptStreamOutcome::CompletedEos || observation.downstream
            != AttemptDownstreamOutcome::Completed || observation.cleanup
            != AttemptCleanupOutcome::Completed || observation.termination_reason
            != AttemptTerminationReason::AcceptedEos,
{
}

/// An exhausted request is answered locally exactly where there is advice for it: unavailable for
/// now, with the code and the same delay in the header and in the body.
pub proof fn local_replies_carry_their_advice(
    session: &ProductionDecisionSession,
    now: u128,
    r: Option<LocalReply>,
)
    requires
        call_ensures(ProductionDecisionSession::exhaustion_local_reply, (session, now), r),
    ensures
        r is Some <==> session.progress.temporary_block_seen
            && !session.progress.non_temporary_block_seen && !session.progress.upstream_attempted,
        r matches Some(reply) ==> {
            let code = if session.progress.probe_busy_seen {
                "RECOVERY_PROBE_IN_PROGRESS"@
            } else {
                "CANDIDATES_COOLING_DOWN"@
            };
            &&& reply.status == 503
            &&& reply.content_type@ == "application/json"@
            &&& reply.retry_after matches Some(delay) && reply.body@
                == "{\"schema_version\":\"hiroute.gateway.error/v1\",\"code\":\""@ + code
                + "\",\"phase\":\"runtime_state\",\"retry_after_seconds\":"@ + delay@ + "}"@
        },
{
}

/// The next attempt is the one under the cursor, with no more time than is left of the request and
/// of its attempts; there is none without attempts, candidates or time.
pub proof fn attempts_are_made_under_the_cursor(
    session: &ProductionDecisionSession,
    request: &SelectionRequest,
    issued_at: u128,
    r: Result<Option<SelectedGatewayAttempt>, String>,
)
    requires
        call_ensures(ProductionDecisionSession::select_next, (session, request, issued_at), r),
    ensures
        r matches Ok(Some(selected)) ==> {
            &&& is_under_cursor(*session, selected)
            &&& request.remaining_attempts > 0
            &&& 0 < selected.budget.allocated <= request.remaining_total
            &&& issued_at + selected.budget.allocated <= session.overall_deadline
            &&& selected.budget.allocated == request.remaining_total || issued_at
                + selected.budget.allocated == session.overall_deadline
            &&& selected.budget.issued_at == issued_at && selected.budget.deadline
                == session.overall_deadline
            &&& selected.request_id == session.request_id && selected.generation
                == request.generation && selected.route_decision_id == session.route_decision_id
        },
        request.remaining_attempts > 0 && session.progress.candidate_index
            < session.candidates@.len() && session.progress.credential_index
            < session.candidates@[session.progress.candidate_index as int].credential_refs@.len()
            && session.overall_deadline > issued_at && request.remaining_total > 0 ==> (r matches Ok(
            Some(_),
        )),
{
}

} // verus!
