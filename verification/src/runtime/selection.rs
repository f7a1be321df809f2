//! Selection of the next attempt of a request from its frozen, ordered candidates.
//!
//! A session walks a cursor over candidates and their credentials. The cursor only moves forward:
//! a credential failure tries the next credential of the same candidate first, every other
//! retryable failure the next candidate.

use vstd::prelude::*;
use crate::text::{decimal, decimal_text, same};
use super::facts::{
    checked_instant_after, instant_after, reads, text_reads, text_view, Disposition,
    IngressProtocol, ProviderClassificationFacts, RetryabilityFact, NANOS_PER_SECOND,
};

verus! {

/// A target binding of one published plan.
#[derive(Clone, Copy, Debug, PartialEq, Eq, Structural)]
pub struct ResolvedTargetBindingId {
    pub plan_revision: u64,
    pub local_id: u32,
}

/// A candidate that the request may use, with the credentials it may use there.
#[derive(Debug)]
pub struct DecisionCandidateAuthority {
    pub binding: ResolvedTargetBindingId,
    pub stable_target: String,
    pub credential_refs: Vec<String>,
    pub candidate_id: Option<String>,
    pub profile_digest: Option<String>,
    pub reason_ledger_identity: Option<String>,
    pub provider_profile: Option<Vec<u8>>,
}

/// A pending context hold: which preference to store for the binding that served the request.
#[derive(Debug)]
pub struct HoldCompletion {
    pub ticket: u64,
    pub preferences: Vec<(ResolvedTargetBindingId, u64)>,
}

impl HoldCompletion {
    /// The first preference recorded for a binding.
    pub open spec fn preference(self, binding: ResolvedTargetBindingId) -> Option<u64> {
        first_preference(self.preferences@, binding)
    }

    pub fn preference_for(&self, binding: ResolvedTargetBindingId) -> (r: Option<u64>)
        ensures
            r == self.preference(binding),
    {
        let mut i: usize = 0;
        assert(self.preferences@.skip(0) == self.preferences@);
        while i < self.preferences.len()
            invariant
                i <= self.preferences.len(),
                self.preference(binding) == first_preference(
                    self.preferences@.skip(i as int),
                    binding,
                ),
            decreases self.preferences.len() - i,
        {
            assert(self.preferences@.skip(i as int).skip(1) == self.preferences@.skip(i + 1));
            if self.preferences[i].0 == binding {
                return Some(self.preferences[i].1);
            }
            i += 1;
        }
        None
    }
}

pub open spec fn first_preference(
    preferences: Seq<(ResolvedTargetBindingId, u64)>,
    binding: ResolvedTargetBindingId,
) -> Option<u64>
    decreases preferences.len(),
{
    if preferences.len() == 0 {
        None
    } else if preferences[0].0 == binding {
        Some(preferences[0].1)
    } else {
        first_preference(preferences.skip(1), binding)
    }
}

/// What the request carries into route selection.
#[derive(Debug)]
pub struct ProductionRouteContext {
    pub ingress: IngressProtocol,
    pub hold_completion: Option<HoldCompletion>,
    pub switch_fallback: Option<ResolvedTargetBindingId>,
}

/// The selection policy of the gateway.
#[derive(Clone, Copy, Debug)]
pub struct ProductionSelection;

/// The request for a new session.
#[derive(Debug)]
pub struct DecisionSessionRequest {
    pub request_id: u64,
    pub candidate_bindings: Vec<ResolvedTargetBindingId>,
    pub overall_deadline: u128,
    pub route_context: ProductionRouteContext,
}

/// The request for the next attempt.
#[derive(Clone, Copy, Debug)]
pub struct SelectionRequest {
    pub generation: u64,
    pub remaining_total: u128,
    pub remaining_attempts: u32,
}

#[derive(Clone, Copy, Debug, PartialEq, Eq, Structural)]
pub struct AttemptBudgetGrant {
    pub issued_at: u128,
    pub allocated: u128,
    pub deadline: u128,
}

/// A selected attempt. The attempt id is zero until the lifecycle has materialized it.
#[derive(Debug)]
pub struct SelectedGatewayAttempt {
    pub request_id: u64,
    pub attempt_id: u64,
    pub generation: u64,
    pub binding: ResolvedTargetBindingId,
    pub credential_ref: String,
    pub route_decision_id: u64,
    pub budget: AttemptBudgetGrant,
}

/// The mechanical class of a failed attempt.
#[derive(Clone, Copy, Debug, PartialEq, Eq, Structural)]
pub enum CoreAttemptFailureClass {
    Connect,
    RequestWrite,
    FirstByte,
    StreamIdle,
    AttemptDeadline,
    Transport,
    Credential,
    Dns,
    Materialization,
    AttemptRequestFilter,
}

/// What is known of a failed attempt.
#[derive(Debug)]
pub struct AttemptFailureFacts {
    pub class: CoreAttemptFailureClass,
    pub provider: Option<ProviderClassificationFacts>,
    pub request_committed: bool,
}

/// A reply that the gateway gives without an upstream response.
#[derive(Debug)]
pub struct LocalReply {
    pub status: u16,
    pub content_type: String,
    pub retry_after: Option<String>,
    pub body: String,
}

/// Where the cursor stands and what the session has seen so far.
#[derive(Clone, Copy, Debug, PartialEq, Eq, Structural)]
pub struct SelectionProgress {
    pub candidate_index: usize,
    pub credential_index: usize,
    pub temporary_block_seen: bool,
    pub probe_busy_seen: bool,
    pub earliest_retry_at: Option<u128>,
    pub non_temporary_block_seen: bool,
    pub upstream_attempted: bool,
}

/// One request's walk over its candidates.
#[derive(Debug)]
pub struct ProductionDecisionSession {
    pub request_id: u64,
    pub route_decision_id: u64,
    pub candidates: Vec<DecisionCandidateAuthority>,
    pub overall_deadline: u128,
    pub hold: Option<HoldCompletion>,
    pub switch_fallback: Option<ResolvedTargetBindingId>,
    pub progress: SelectionProgress,
}

/// A result with its error text as characters.
pub open spec fn result_view<T>(r: Result<T, String>) -> Result<T, Seq<char>> {
    match r {
        Ok(value) => Ok(value),
        Err(text) => Err(text@),
    }
}

pub open spec fn no_progress() -> SelectionProgress {
    SelectionProgress {
        candidate_index: 0,
        credential_index: 0,
        temporary_block_seen: false,
        probe_busy_seen: false,
        earliest_retry_at: None,
        non_temporary_block_seen: false,
        upstream_attempted: false,
    }
}

/// Whether the candidates are those of the request, in its order.
pub open spec fn candidates_match(
    candidates: Seq<DecisionCandidateAuthority>,
    bindings: Seq<ResolvedTargetBindingId>,
) -> bool {
    &&& candidates.len() > 0
    &&& candidates.len() == bindings.len()
    &&& forall|i: int|
        0 <= i < candidates.len() ==> (#[trigger] candidates[i]).binding == bindings[i]
}

/// Whether a fallback is the second candidate and not also the first.
pub open spec fn fallback_is_second(
    candidates: Seq<DecisionCandidateAuthority>,
    fallback: ResolvedTargetBindingId,
) -> bool {
    candidates.len() > 1 && candidates[0].binding != fallback && candidates[1].binding == fallback
}

impl ProductionSelection {
    /// A session needs the candidates that the request was authorized for.
    pub fn begin_session(&self, request: DecisionSessionRequest) -> (r: Result<
        ProductionDecisionSession,
        String,
    >)
        ensures
            r matches Err(error) && error@
                == "production selection requires an authorized candidate closure"@,
    {
        Err("production selection requires an authorized candidate closure".to_owned())
    }

    pub fn begin_authorized_session(
        &self,
        request: DecisionSessionRequest,
        candidates: Vec<DecisionCandidateAuthority>,
    ) -> (r: Result<ProductionDecisionSession, String>)
        ensures
            match r {
                Ok(session) => {
                    &&& candidates_match(candidates@, request.candidate_bindings@)
                    &&& request.route_context.switch_fallback matches Some(fallback)
                        ==> fallback_is_second(candidates@, fallback)
                    &&& session.request_id == request.request_id
                    &&& session.route_decision_id == request.request_id
                    &&& session.candidates == candidates
                    &&& session.overall_deadline == request.overall_deadline
                    &&& session.hold == request.route_context.hold_completion
                    &&& session.switch_fallback == request.route_context.switch_fallback
                    &&& session.progress == no_progress()
                },
                Err(error) => if !candidates_match(candidates@, request.candidate_bindings@) {
                    error@ == "authorized candidate order is inconsistent"@
                } else {
                    &&& request.route_context.switch_fallback matches Some(fallback)
                        && !fallback_is_second(candidates@, fallback)
                    &&& error@ == "switch fallback is outside the frozen second candidate"@
                },
            },
    {
        if candidates.len() == 0 || candidates.len() != request.candidate_bindings.len() {
            return Err("authorized candidate order is inconsistent".to_owned());
        }
        let mut i: usize = 0;
        while i < candidates.len()
            invariant
                i <= candidates.len(),
                candidates.len() == request.candidate_bindings.len(),
                forall|j: int|
                    0 <= j < i ==> (#[trigger] candidates@[j]).binding
                        == request.candidate_bindings@[j],
            decreases candidates.len() - i,
        {
            if candidates[i].binding != request.candidate_bindings[i] {
                return Err("authorized candidate order is inconsistent".to_owned());
            }
            i += 1;
        }
        let route_context = request.route_context;
        match route_context.switch_fallback {
            Some(fallback) => {
                if candidates.len() < 2 || candidates[0].binding == fallback
                    || candidates[1].binding != fallback {
                    return Err(
                        "switch fallback is outside the frozen second candidate".to_owned(),
                    );
                }
            },
            None => {},
        }
        Ok(
            ProductionDecisionSession {
                request_id: request.request_id,
                route_decision_id: request.request_id,
                candidates,
                overall_deadline: request.overall_deadline,
                hold: route_context.hold_completion,
                switch_fallback: route_context.switch_fallback,
                progress: SelectionProgress {
                    candidate_index: 0,
                    credential_index: 0,
                    temporary_block_seen: false,
                    probe_busy_seen: false,
                    earliest_retry_at: None,
                    non_temporary_block_seen: false,
                    upstream_attempted: false,
                },
            },
        )
    }
}

/// Whole seconds that cover a remaining time, at least one.
pub open spec fn covering_seconds(remaining: u128) -> int {
    if remaining == 0 {
        1
    } else {
        (remaining + NANOS_PER_SECOND - 1) / NANOS_PER_SECOND as int
    }
}

/// The retry delay to announce for a remaining time, in seconds.
pub open spec fn announced_seconds(remaining: u128) -> u64 {
    if covering_seconds(remaining) <= u64::MAX {
        covering_seconds(remaining) as u64
    } else {
        u64::MAX
    }
}

pub fn retry_after_seconds(remaining: u128) -> (r: u64)
    ensures
        r == announced_seconds(remaining),
        r >= 1,
{
    let seconds: u128 = remaining / NANOS_PER_SECOND;
    let rest: u128 = remaining % NANOS_PER_SECOND;
    proof {
        assert(remaining == seconds * 1_000_000_000 + rest);
        if rest == 0 && remaining > 0 {
            assert((remaining + 999_999_999) / 1_000_000_000 == seconds);
        } else if remaining > 0 {
            assert((remaining + 999_999_999) / 1_000_000_000 == seconds + 1);
        }
    }
    let rounded: u128 = if rest != 0 {
        seconds + 1
    } else {
        seconds
    };
    if rounded == 0 {
        1
    } else if rounded > u64::MAX as u128 {
        u64::MAX
    } else {
        rounded as u64
    }
}

/// The body of the reply that asks the client to come back.
pub open spec fn exhaustion_body(code: Seq<char>, seconds: u64) -> Seq<char> {
    "{\"schema_version\":\"hiroute.gateway.error/v1\",\"code\":\""@ + code
        + "\",\"phase\":\"runtime_state\",\"retry_after_seconds\":"@ + decimal_text(seconds as nat)
        + "}"@
}

impl ProductionDecisionSession {
    /// Why a selected attempt is not the one under the cursor.
    pub open spec fn cursor_error(self, selected: SelectedGatewayAttempt) -> Option<Seq<char>> {
        let at = self.progress.candidate_index as int;
        if at >= self.candidates@.len() {
            Some("selected candidate is outside the frozen closure"@)
        } else {
            let candidate = self.candidates@[at];
            if selected.binding != candidate.binding || self.progress.credential_index
                >= candidate.credential_refs.len()
                || candidate.credential_refs@[self.progress.credential_index as int]@
                != selected.credential_ref@ {
                Some("selected credential is outside the current frozen cursor"@)
            } else {
                None
            }
        }
    }

    /// Whether a failed attempt on the switched-to model may fall back to the previous one.
    pub open spec fn may_fall_back(self, selected: SelectedGatewayAttempt) -> bool {
        &&& selected.attempt_id != 0
        &&& self.progress.candidate_index == 0
        &&& self.switch_fallback matches Some(fallback) && self.candidates@.len() > 1
            && self.candidates@[1].binding == fallback
        &&& self.candidates@.len() > 0 && self.candidates@[0].binding == selected.binding
    }

    /// The progress with the cursor on the next candidate.
    pub open spec fn at_next_candidate(self, progress: SelectionProgress) -> SelectionProgress {
        SelectionProgress {
            candidate_index: if progress.candidate_index == usize::MAX {
                usize::MAX
            } else {
                (progress.candidate_index + 1) as usize
            },
            credential_index: 0,
            ..progress
        }
    }

    /// The progress with the cursor on the next credential of the candidate, or on the next
    /// candidate where there is none.
    pub open spec fn at_next_credential(self, progress: SelectionProgress) -> SelectionProgress {
        if progress.candidate_index < self.candidates@.len() && progress.credential_index + 1
            < self.candidates@[progress.candidate_index as int].credential_refs.len() {
            SelectionProgress {
                credential_index: (progress.credential_index + 1) as usize,
                ..progress
            }
        } else {
            self.at_next_candidate(progress)
        }
    }

    /// What remains the same in a session.
    pub open spec fn same_request(self, other: Self) -> bool {
        &&& self.request_id == other.request_id
        &&& self.route_decision_id == other.route_decision_id
        &&& self.candidates == other.candidates
        &&& self.overall_deadline == other.overall_deadline
        &&& self.hold == other.hold
        &&& self.switch_fallback == other.switch_fallback
    }

    pub fn can_switch_fallback(&self, selected: &SelectedGatewayAttempt) -> (r: bool)
        ensures
            r == self.may_fall_back(*selected),
    {
        if selected.attempt_id == 0 || self.progress.candidate_index != 0 {
            return false;
        }
        let second = match self.switch_fallback {
            Some(fallback) => self.candidates.len() > 1 && self.candidates[1].binding == fallback,
            None => false,
        };
        second && self.candidates[0].binding == selected.binding
    }

    pub fn ensure_selected_matches_cursor(&self, selected: &SelectedGatewayAttempt) -> (r: Result<
        (),
        String,
    >)
        ensures
            result_view(r) == (match self.cursor_error(*selected) {
                Some(error) => Err(error),
                None => Ok(()),
            }),
    {
        if self.progress.candidate_index >= self.candidates.len() {
            return Err("selected candidate is outside the frozen closure".to_owned());
        }
        let candidate = &self.candidates[self.progress.candidate_index];
        if selected.binding != candidate.binding || self.progress.credential_index
            >= candidate.credential_refs.len() || !same(
            candidate.credential_refs[self.progress.credential_index].as_str(),
            selected.credential_ref.as_str(),
        ) {
            return Err("selected credential is outside the current frozen cursor".to_owned());
        }
        Ok(())
    }

    pub fn advance_candidate(&mut self) -> (r: bool)
        ensures
            final(self).same_request(*old(self)),
            final(self).progress == old(self).at_next_candidate(old(self).progress),
            r == (final(self).progress.candidate_index < final(self).candidates@.len()),
    {
        self.progress.candidate_index = self.progress.candidate_index.saturating_add(1);
        self.progress.credential_index = 0;
        self.progress.candidate_index < self.candidates.len()
    }

    pub fn advance_credential(&mut self) -> (r: bool)
        ensures
            final(self).same_request(*old(self)),
            final(self).progress == old(self).at_next_credential(old(self).progress),
            r == (final(self).progress.candidate_index < final(self).candidates@.len()),
    {
        let next: usize = self.progress.credential_index.saturating_add(1);
        if self.progress.candidate_index < self.candidates.len() && next
            < self.candidates[self.progress.candidate_index].credential_refs.len() {
            self.progress.credential_index = next;
            true
        } else {
            self.advance_candidate()
        }
    }

    /// The attempt under the cursor at `issued_at`, with the time that is left for it.
    pub fn select_next(&self, request: &SelectionRequest, issued_at: u128) -> (r: Result<
        Option<SelectedGatewayAttempt>,
        String,
    >)
        ensures
            ({
                let at = self.progress.candidate_index as int;
                let left = if self.overall_deadline > issued_at {
                    self.overall_deadline - issued_at
                } else {
                    0
                };
                let allocated = if left < request.remaining_total {
                    left
                } else {
                    request.remaining_total as int
                };
                if request.remaining_attempts == 0 || at >= self.candidates@.len() {
                    r matches Ok(None)
                } else if self.progress.credential_index
                    >= self.candidates@[at].credential_refs.len() {
                    r matches Err(error) && error@
                        == "candidate has no authorized credential reference"@
                } else if allocated == 0 {
                    r matches Ok(None)
                } else {
                    &&& r matches Ok(Some(selected))
                    &&& selected.request_id == self.request_id
                    &&& selected.attempt_id == 0
                    &&& selected.generation == request.generation
                    &&& selected.binding == self.candidates@[at].binding
                    &&& selected.credential_ref@
                        == self.candidates@[at].credential_refs@[self.progress.credential_index as int]@
                    &&& selected.route_decision_id == self.route_decision_id
                    &&& selected.budget.issued_at == issued_at
                    &&& selected.budget.allocated == allocated
                    &&& selected.budget.deadline == self.overall_deadline
                }
            }),
            r matches Ok(Some(selected)) ==> self.cursor_error(selected) is None,
    {
        if request.remaining_attempts == 0 || self.progress.candidate_index
            >= self.candidates.len() {
            return Ok(None);
        }
        let candidate = &self.candidates[self.progress.candidate_index];
        if self.progress.credential_index >= candidate.credential_refs.len() {
            return Err("candidate has no authorized credential reference".to_owned());
        }
        let credential_ref = candidate.credential_refs[self.progress.credential_index].clone();
        let left: u128 = self.overall_deadline.saturating_sub(issued_at);
        let allocated: u128 = if left < request.remaining_total {
            left
        } else {
            request.remaining_total
        };
        if allocated == 0 {
            return Ok(None);
        }
        Ok(
            Some(
                SelectedGatewayAttempt {
                    request_id: self.request_id,
                    attempt_id: 0,
                    generation: request.generation,
                    binding: candidate.binding,
                    credential_ref,
                    route_decision_id: self.route_decision_id,
                    budget: AttemptBudgetGrant {
                        issued_at,
                        allocated,
                        deadline: self.overall_deadline,
                    },
                },
            ),
        )
    }

    /// The retry advice of an exhausted session: its code and delay. There is one only where
    /// every block was temporary and nothing reached an upstream; a running probe goes first.
    pub open spec fn exhaustion_advice(self, now: u128) -> Option<(Seq<char>, u64)> {
        let p = self.progress;
        if !p.temporary_block_seen || p.non_temporary_block_seen || p.upstream_attempted {
            None
        } else if p.probe_busy_seen {
            Some(("RECOVERY_PROBE_IN_PROGRESS"@, 1))
        } else {
            Some(
                (
                    "CANDIDATES_COOLING_DOWN"@,
                    match p.earliest_retry_at {
                        Some(at) => if at >= now {
                            announced_seconds((at - now) as u128)
                        } else {
                            1
                        },
                        None => 1,
                    },
                ),
            )
        }
    }

    pub fn exhaustion_local_reply(&self, now: u128) -> (r: Option<LocalReply>)
        ensures
            match self.exhaustion_advice(now) {
                None => r is None,
                Some((code, seconds)) => {
                    &&& r matches Some(reply)
                    &&& reply.status == 503
                    &&& reply.content_type@ == "application/json"@
                    &&& text_view(reply.retry_after) == Some(decimal_text(seconds as nat))
                    &&& reply.body@ == exhaustion_body(code, seconds)
                },
            },
    {
        let p = self.progress;
        if !p.temporary_block_seen || p.non_temporary_block_seen || p.upstream_attempted {
            return None;
        }
        let (code, seconds): (&str, u64) = if p.probe_busy_seen {
            ("RECOVERY_PROBE_IN_PROGRESS", 1)
        } else {
            let seconds: u64 = match p.earliest_retry_at {
                Some(at) => if at >= now {
                    retry_after_seconds(at - now)
                } else {
                    1
                },
                None => 1,
            };
            ("CANDIDATES_COOLING_DOWN", seconds)
        };
        let digits = decimal(seconds);
        let mut body =
            "{\"schema_version\":\"hiroute.gateway.error/v1\",\"code\":\"".to_owned();
        body.append(code);
        body.append("\",\"phase\":\"runtime_state\",\"retry_after_seconds\":");
        body.append(digits.as_str());
        body.append("}");
        Some(
            LocalReply {
                status: 503,
                content_type: "application/json".to_owned(),
                retry_after: Some(digits),
                body,
            },
        )
    }

    /// The progress once an attempt has reached the upstream or not.
    pub open spec fn attempted(self, selected: SelectedGatewayAttempt) -> SelectionProgress {
        SelectionProgress {
            upstream_attempted: self.progress.upstream_attempted || selected.attempt_id != 0,
            ..self.progress
        }
    }

    /// Goes on where the cursor still stands on a candidate.
    pub open spec fn onward(self, progress: SelectionProgress) -> Disposition {
        if progress.candidate_index < self.candidates@.len() {
            Disposition::Continue
        } else {
            Disposition::Terminate
        }
    }

    /// The decision on a classified response, and the progress it leaves.
    pub open spec fn decided(
        self,
        selected: SelectedGatewayAttempt,
        facts: ProviderClassificationFacts,
    ) -> (Result<Disposition, Seq<char>>, SelectionProgress) {
        let seen = self.attempted(selected);
        let failed = facts.error_class is Some;
        if facts.retryability != RetryabilityFact::Retryable {
            if failed && self.may_fall_back(selected) {
                match self.cursor_error(selected) {
                    Some(error) => (Err(error), seen),
                    None => (Ok(Disposition::Continue), self.at_next_candidate(seen)),
                }
            } else if failed {
                (Ok(Disposition::Terminate), seen)
            } else {
                (Ok(Disposition::Accept), seen)
            }
        } else {
            match self.cursor_error(selected) {
                Some(error) => (Err(error), seen),
                None => {
                    let class = text_view(facts.error_class);
                    let next = if reads(class, "credential") || reads(class, "quota") {
                        self.at_next_credential(seen)
                    } else {
                        self.at_next_candidate(seen)
                    };
                    (Ok(self.onward(next)), next)
                },
            }
        }
    }

    pub fn decide(
        &mut self,
        selected: &SelectedGatewayAttempt,
        facts: &ProviderClassificationFacts,
    ) -> (r: Result<Disposition, String>)
        ensures
            final(self).same_request(*old(self)),
            (result_view(r), final(self).progress) == old(self).decided(*selected, *facts),
    {
        self.progress.upstream_attempted = self.progress.upstream_attempted || selected.attempt_id
            != 0;
        if facts.retryability != RetryabilityFact::Retryable {
            if facts.error_class.is_some() && self.can_switch_fallback(selected) {
                match self.ensure_selected_matches_cursor(selected) {
                    Ok(()) => {},
                    Err(error) => return Err(error),
                }
                self.advance_candidate();
                return Ok(Disposition::Continue);
            }
            return Ok(
                if facts.error_class.is_some() {
                    Disposition::Terminate
                } else {
                    Disposition::Accept
                },
            );
        }
        match self.ensure_selected_matches_cursor(selected) {
            Ok(()) => {},
            Err(error) => return Err(error),
        }
        let next_key = text_reads(&facts.error_class, "credential") || text_reads(
            &facts.error_class,
            "quota",
        );
        let has_next = if next_key {
            self.advance_credential()
        } else {
            self.advance_candidate()
        };
        Ok(
            if has_next {
                Disposition::Continue
            } else {
                Disposition::Terminate
            },
        )
    }

    /// The error class that a failure reports.
    pub open spec fn reported_class(failure: AttemptFailureFacts) -> Option<Seq<char>> {
        match failure.provider {
            Some(provider) => text_view(provider.error_class),
            None => None,
        }
    }

    /// Whether a failure is a block that ends by itself.
    pub open spec fn is_temporary(failure: AttemptFailureFacts) -> bool {
        reads(Self::reported_class(failure), "runtime_state_cooling_down") || reads(
            Self::reported_class(failure),
            "runtime_state_probe_busy",
        )
    }

    /// The progress once a failure has been seen at `now`.
    pub open spec fn observed(
        self,
        selected: SelectedGatewayAttempt,
        failure: AttemptFailureFacts,
        now: u128,
    ) -> SelectionProgress {
        let seen = self.attempted(selected);
        if Self::is_temporary(failure) && selected.attempt_id == 0 {
            let retry_at = match failure.provider {
                Some(provider) => match provider.retry_after {
                    Some(delay) => instant_after(now, delay),
                    None => None,
                },
                None => None,
            };
            SelectionProgress {
                temporary_block_seen: true,
                probe_busy_seen: seen.probe_busy_seen || reads(
                    Self::reported_class(failure),
                    "runtime_state_probe_busy",
                ),
                earliest_retry_at: match (retry_at, seen.earliest_retry_at) {
                    (Some(at), Some(earliest)) => Some(
                        if earliest < at {
                            earliest
                        } else {
                            at
                        },
                    ),
                    (Some(at), None) => Some(at),
                    (None, earliest) => earliest,
                },
                ..seen
            }
        } else {
            SelectionProgress { non_temporary_block_seen: true, ..seen }
        }
    }

    /// Whether a failure may be tried again elsewhere.
    pub open spec fn is_retryable(failure: AttemptFailureFacts) -> bool {
        failure.provider matches Some(provider) && provider.retryability
            == RetryabilityFact::Retryable
    }

    /// The decision on a failed attempt at `now`, and the progress it leaves.
    pub open spec fn decided_failure(
        self,
        selected: SelectedGatewayAttempt,
        failure: AttemptFailureFacts,
        now: u128,
    ) -> (Result<Disposition, Seq<char>>, SelectionProgress) {
        let seen = self.observed(selected, failure, now);
        if !Self::is_retryable(failure) {
            if failure.request_committed && self.may_fall_back(selected) {
                match self.cursor_error(selected) {
                    Some(error) => (Err(error), seen),
                    None => (Ok(Disposition::Continue), self.at_next_candidate(seen)),
                }
            } else {
                (Ok(Disposition::Terminate), seen)
            }
        } else {
            match self.cursor_error(selected) {
                Some(error) => (Err(error), seen),
                None => {
                    let next = if failure.class == CoreAttemptFailureClass::Credential {
                        self.at_next_credential(seen)
                    } else {
                        self.at_next_candidate(seen)
                    };
                    (
                        Ok(
                            if Self::is_temporary(failure) {
                                Disposition::Continue
                            } else {
                                self.onward(next)
                            },
                        ),
                        next,
                    )
                },
            }
        }
    }

    pub fn decide_failure(
        &mut self,
        selected: &SelectedGatewayAttempt,
        failure: &AttemptFailureFacts,
        now: u128,
    ) -> (r: Result<Disposition, String>)
        ensures
            final(self).same_request(*old(self)),
            (result_view(r), final(self).progress) == old(self).decided_failure(
                *selected,
                *failure,
                now,
            ),
    {
        self.progress.upstream_attempted = self.progress.upstream_attempted || selected.attempt_id
            != 0;
        let (cooling, probing, retry_after, retryable): (bool, bool, Option<u128>, bool) =
            match &failure.provider {
            Some(provider) => (
                text_reads(&provider.error_class, "runtime_state_cooling_down"),
                text_reads(&provider.error_class, "runtime_state_probe_busy"),
                provider.retry_after,
                provider.retryability == RetryabilityFact::Retryable,
            ),
            None => (false, false, None, false),
        };
        let temporary = cooling || probing;
        if temporary && selected.attempt_id == 0 {
            self.progress.temporary_block_seen = true;
            if probing {
                self.progress.probe_busy_seen = true;
            }
            if let Some(delay) = retry_after {
                if let Some(deadline) = checked_instant_after(now, delay) {
                    self.progress.earliest_retry_at = Some(
                        match self.progress.earliest_retry_at {
                            Some(current) => if current < deadline {
                                current
                            } else {
                                deadline
                            },
                            None => deadline,
                        },
                    );
                }
            }
        } else {
            self.progress.non_temporary_block_seen = true;
        }
        if !retryable {
            if failure.request_committed && self.can_switch_fallback(selected) {
                match self.ensure_selected_matches_cursor(selected) {
                    Ok(()) => {},
                    Err(error) => return Err(error),
                }
                self.advance_candidate();
                return Ok(Disposition::Continue);
            }
            return Ok(Disposition::Terminate);
        }
        match self.ensure_selected_matches_cursor(selected) {
            Ok(()) => {},
            Err(error) => return Err(error),
        }
        let has_next = if failure.class == CoreAttemptFailureClass::Credential {
            self.advance_credential()
        } else {
            self.advance_candidate()
        };
        Ok(
            if has_next || temporary {
                Disposition::Continue
            } else {
                Disposition::Terminate
            },
        )
    }

    /// An accepted response that could not be committed ends the request.
    pub fn replace_blocked_accept(&self) -> (r: Disposition)
        ensures
            r == Disposition::Terminate,
    {
        Disposition::Terminate
    }

    /// The hold to complete once an attempt has ended: the ticket and the preference of the
    /// binding that served the whole response.
    pub fn observe_completed(&self, observation: &CompletedAttemptObservation) -> (r: Option<
        (u64, u64),
    >)
        ensures
            r == (if observation.route_decision_id == self.route_decision_id
                && observation.is_full_success() {
                match self.hold {
                    Some(completion) => match completion.preference(observation.binding) {
                        Some(preference) => Some((completion.ticket, preference)),
                        None => None,
                    },
                    None => None,
                }
            } else {
                None
            }),
    {
        if observation.route_decision_id != self.route_decision_id || !is_complete_accept(
            observation,
        ) {
            return None;
        }
        match &self.hold {
            Some(completion) => match completion.preference_for(observation.binding) {
                Some(preference) => Some((completion.ticket, preference)),
                None => None,
            },
            None => None,
        }
    }
}

#[derive(Clone, Copy, Debug, PartialEq, Eq, Structural)]
pub enum AttemptStreamOutcome {
    NotStarted,
    StreamStartedNoRetry,
    CompletedEos,
}

#[derive(Clone, Copy, Debug, PartialEq, Eq, Structural)]
pub enum AttemptDownstreamOutcome {
    NotStarted,
    Failed,
    Completed,
}

#[derive(Clone, Copy, Debug, PartialEq, Eq, Structural)]
pub enum AttemptCleanupOutcome {
    Failed,
    Completed,
}

#[derive(Clone, Copy, Debug, PartialEq, Eq, Structural)]
pub enum AttemptTerminationReason {
    AcceptedEos,
    Other,
}

/// How one attempt ended.
#[derive(Debug)]
pub struct CompletedAttemptObservation {
    pub route_decision_id: u64,
    pub binding: ResolvedTargetBindingId,
    pub provider: Option<ProviderClassificationFacts>,
    pub failure: Option<AttemptFailureFacts>,
    pub disposition: Disposition,
    pub stream: AttemptStreamOutcome,
    pub downstream: AttemptDownstreamOutcome,
    pub cleanup: AttemptCleanupOutcome,
    pub termination_reason: AttemptTerminationReason,
}

impl CompletedAttemptObservation {
    /// The whole accepted response reached the client and was cleaned up after.
    pub open spec fn is_full_success(self) -> bool {
        &&& self.disposition == Disposition::Accept
        &&& self.provider matches Some(facts) && reads(
            text_view(facts.model_event),
            "response_complete",
        )
        &&& self.failure is None
        &&& self.stream == AttemptStreamOutcome::CompletedEos
        &&& self.downstream == AttemptDownstreamOutcome::Completed
        &&& self.cleanup == AttemptCleanupOutcome::Completed
        &&& self.termination_reason == AttemptTerminationReason::AcceptedEos
    }
}

pub fn is_complete_accept(observation: &CompletedAttemptObservation) -> (r: bool)
    ensures
        r == observation.is_full_success(),
{
    let complete = match &observation.provider {
        Some(facts) => text_reads(&facts.model_event, "response_complete"),
        None => false,
    };
    observation.disposition == Disposition::Accept && complete && observation.failure.is_none()
        && observation.stream == AttemptStreamOutcome::CompletedEos && observation.downstream
        == AttemptDownstreamOutcome::Completed && observation.cleanup
        == AttemptCleanupOutcome::Completed && observation.termination_reason
        == AttemptTerminationReason::AcceptedEos
}

/// Whether one cursor stands strictly behind another.
pub open spec fn cursor_after(later: SelectionProgress, earlier: SelectionProgress) -> bool {
    later.candidate_index > earlier.candidate_index || (later.candidate_index
        == earlier.candidate_index && later.credential_index > earlier.credential_index)
}

/// Every decision to continue moves the cursor strictly forward, and no decision moves it back.
/// So no candidate is tried twice with one credential, and a request ends.
pub proof fn continuing_moves_the_cursor_forward(
    session: ProductionDecisionSession,
    selected: SelectedGatewayAttempt,
    facts: ProviderClassificationFacts,
    failure: AttemptFailureFacts,
    now: u128,
)
    requires
        session.progress.candidate_index < usize::MAX,
    ensures
        session.decided(selected, facts).0 == Ok::<_, Seq<char>>(Disposition::Continue)
            ==> cursor_after(session.decided(selected, facts).1, session.progress),
        session.decided_failure(selected, failure, now).0 == Ok::<_, Seq<char>>(
            Disposition::Continue,
        ) ==> cursor_after(session.decided_failure(selected, failure, now).1, session.progress),
        !cursor_after(session.progress, session.decided(selected, facts).1),
        !cursor_after(session.progress, session.decided_failure(selected, failure, now).1),
{
}

/// A retryable credential or quota failure tries the next credential of the same candidate before
/// it leaves that candidate.
pub proof fn credential_failures_stay_on_the_candidate(
    session: ProductionDecisionSession,
    selected: SelectedGatewayAttempt,
    facts: ProviderClassificationFacts,
)
    requires
        session.cursor_error(selected) is None,
        facts.retryability == RetryabilityFact::Retryable,
        reads(text_view(facts.error_class), "credential") || reads(
            text_view(facts.error_class),
            "quota",
        ),
        session.progress.credential_index + 1
            < session.candidates@[session.progress.candidate_index as int].credential_refs.len(),
    ensures
        session.decided(selected, facts).0 == Ok::<_, Seq<char>>(Disposition::Continue),
        session.decided(selected, facts).1.candidate_index == session.progress.candidate_index,
        session.decided(selected, facts).1.credential_index == session.progress.credential_index
            + 1,
{
}

/// The fallback to the previous model happens at most once: it needs the cursor on the first
/// candidate and leaves it behind, and no decision brings it back.
pub proof fn fallback_happens_at_most_once(
    session: ProductionDecisionSession,
    selected: SelectedGatewayAttempt,
    later: ProductionDecisionSession,
    reselected: SelectedGatewayAttempt,
)
    requires
        session.may_fall_back(selected),
        later.same_request(session),
        !cursor_after(session.at_next_candidate(session.progress), later.progress),
    ensures
        !later.may_fall_back(reselected),
{
}

/// An attempt that the lifecycle has not promoted never falls back to the previous model: a
/// failure of it that is not retryable ends the request with the cursor unmoved.
pub proof fn provisional_failure_does_not_fall_back(
    session: ProductionDecisionSession,
    selected: SelectedGatewayAttempt,
    failure: AttemptFailureFacts,
    now: u128,
)
    requires
        selected.attempt_id == 0 || !failure.request_committed,
        !ProductionDecisionSession::is_retryable(failure),
    ensures
        session.decided_failure(selected, failure, now).0 == Ok::<_, Seq<char>>(
            Disposition::Terminate,
        ),
        session.decided_failure(selected, failure, now).1.candidate_index
            == session.progress.candidate_index,
        session.decided_failure(selected, failure, now).1.credential_index
            == session.progress.credential_index,
{
}

/// One decision that a request asks its session for.
pub enum DecisionStep {
    Response { selected: SelectedGatewayAttempt, facts: ProviderClassificationFacts },
    Failure { selected: SelectedGatewayAttempt, failure: AttemptFailureFacts, now: u128 },
}

impl DecisionStep {
    /// A block that ends by itself, reported before an attempt was made.
    pub open spec fn is_temporary_block(self) -> bool {
        self matches DecisionStep::Failure { selected, failure, now } && selected.attempt_id == 0
            && ProductionDecisionSession::is_temporary(failure)
    }

    /// A block by a running probe, reported before an attempt was made.
    pub open spec fn is_probe_block(self) -> bool {
        self matches DecisionStep::Failure { selected, failure, now } && selected.attempt_id == 0
            && reads(
            ProductionDecisionSession::reported_class(failure),
            "runtime_state_probe_busy",
        )
    }

    /// An attempt that was made, or a failure that is no temporary block.
    pub open spec fn rules_out_advice(self) -> bool {
        match self {
            DecisionStep::Response { selected, facts } => selected.attempt_id != 0,
            DecisionStep::Failure { selected, failure, now } => !self.is_temporary_block(),
        }
    }
}

/// The progress of a session after a sequence of decisions.
pub open spec fn progress_after(
    session: ProductionDecisionSession,
    steps: Seq<DecisionStep>,
) -> SelectionProgress
    decreases steps.len(),
{
    if steps.len() == 0 {
        session.progress
    } else {
        let before = ProductionDecisionSession {
            progress: progress_after(session, steps.drop_last()),
            ..session
        };
        match steps.last() {
            DecisionStep::Response { selected, facts } => before.decided(selected, facts).1,
            DecisionStep::Failure { selected, failure, now } => before.decided_failure(
                selected,
                failure,
                now,
            ).1,
        }
    }
}

/// What a session that began afresh remembers of its decisions.
proof fn lemma_progress_remembers(session: ProductionDecisionSession, steps: Seq<DecisionStep>)
    requires
        session.progress == no_progress(),
    ensures
        ({
            let p = progress_after(session, steps);
            &&& p.temporary_block_seen <==> exists|i: int|
                0 <= i < steps.len() && (#[trigger] steps[i]).is_temporary_block()
            &&& p.probe_busy_seen <==> exists|i: int|
                0 <= i < steps.len() && (#[trigger] steps[i]).is_probe_block()
            &&& (p.non_temporary_block_seen || p.upstream_attempted) <==> exists|i: int|
                0 <= i < steps.len() && (#[trigger] steps[i]).rules_out_advice()
        }),
    decreases steps.len(),
{
    if steps.len() > 0 {
        let rest = steps.drop_last();
        let last = steps.last();
        lemma_progress_remembers(session, rest);
        assert forall|i: int| 0 <= i < rest.len() implies rest[i] == #[trigger] steps[i] by {}
        assert(last == steps[steps.len() - 1]);
        let p = progress_after(session, steps);
        let before = progress_after(session, rest);
        assert(p.temporary_block_seen == (before.temporary_block_seen
            || last.is_temporary_block()));
        assert(p.probe_busy_seen == (before.probe_busy_seen || last.is_probe_block()));
        assert((p.non_temporary_block_seen || p.upstream_attempted) == (
        before.non_temporary_block_seen || before.upstream_attempted || last.rules_out_advice()));
        if before.temporary_block_seen {
            let i = choose|i: int|
                0 <= i < rest.len() && (#[trigger] rest[i]).is_temporary_block();
            assert(steps[i].is_temporary_block());
        }
        if before.probe_busy_seen {
            let i = choose|i: int| 0 <= i < rest.len() && (#[trigger] rest[i]).is_probe_block();
            assert(steps[i].is_probe_block());
        }
        if before.non_temporary_block_seen || before.upstream_attempted {
            let i = choose|i: int| 0 <= i < rest.len() && (#[trigger] rest[i]).rules_out_advice();
            assert(steps[i].rules_out_advice());
        }
    }
}

/// Over all the decisions of a request, in any order: retry advice is given exactly where some
/// temporary block was reported, no attempt was made and every failure was a temporary block.
/// The delay is at least a second, and the advice names a running probe exactly where one was
/// reported.
pub proof fn advice_tells_of_temporary_blocks_alone(
    session: ProductionDecisionSession,
    steps: Seq<DecisionStep>,
    later: ProductionDecisionSession,
    asked_at: u128,
)
    requires
        session.progress == no_progress(),
        later.same_request(session),
        later.progress == progress_after(session, steps),
    ensures
        later.exhaustion_advice(asked_at) is Some <==> ({
            &&& exists|i: int| 0 <= i < steps.len() && (#[trigger] steps[i]).is_temporary_block()
            &&& !exists|i: int| 0 <= i < steps.len() && (#[trigger] steps[i]).rules_out_advice()
        }),
        later.exhaustion_advice(asked_at) matches Some((code, seconds)) ==> {
            &&& seconds >= 1
            &&& code == "RECOVERY_PROBE_IN_PROGRESS"@ <==> exists|i: int|
                0 <= i < steps.len() && (#[trigger] steps[i]).is_probe_block()
        },
{
    lemma_progress_remembers(session, steps);
    reveal_strlit("RECOVERY_PROBE_IN_PROGRESS");
    reveal_strlit("CANDIDATES_COOLING_DOWN");
    assert("RECOVERY_PROBE_IN_PROGRESS"@[0] != "CANDIDATES_COOLING_DOWN"@[0]);
}

/// Once anything but a temporary block was seen, no retry advice is given any more, whatever
/// follows.
pub proof fn mixed_exhaustion_gives_no_advice(
    session: ProductionDecisionSession,
    selected: SelectedGatewayAttempt,
    failure: AttemptFailureFacts,
    now: u128,
    later: ProductionDecisionSession,
    asked_at: u128,
)
    requires
        !ProductionDecisionSession::is_temporary(failure) || selected.attempt_id != 0
            || session.progress.non_temporary_block_seen || session.progress.upstream_attempted,
        later.progress == session.decided_failure(selected, failure, now).1,
    ensures
        later.exhaustion_advice(asked_at) is None,
{
}

} // verus!
