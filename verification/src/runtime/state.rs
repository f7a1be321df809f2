//! Health state of bindings and credentials: permits to use a target, the state that a failure or
//! a success leaves behind, and the compare-and-swap protocol that writes it.
//!
//! The store itself is outside. Each operation is a decision on what was read, which names the
//! store call to make next, and a decision on what that call answered.

use vstd::prelude::*;
use crate::text::{after_prefix, byte_prefix, strip_prefix, take_bytes};
use super::facts::{
    checked_instant_after, instant_after, AttemptFailure, AttemptFailureClass, FailureStateScope,
    PreOutputStreamClass,
};

verus! {

/// How long a target rests after a failure that names no delay of its own.
#[derive(Clone, Copy, Debug, PartialEq, Eq, Structural)]
pub struct RuntimeCooldownPolicy {
    pub credential_quota: u128,
    pub binding: u128,
}

impl Default for RuntimeCooldownPolicy {
    fn default() -> (r: Self)
        ensures
            r.credential_quota == 60_000_000_000,
            r.binding == 15_000_000_000,
    {
        RuntimeCooldownPolicy { credential_quota: 60_000_000_000, binding: 15_000_000_000 }
    }
}

#[derive(Clone, Copy, Debug, PartialEq, Eq, Structural)]
pub enum RuntimeHealth {
    Active,
    CoolingDown { until: u128 },
    Disabled,
}

/// The stored state of one target.
#[derive(Clone, Copy, Debug, PartialEq, Eq, Structural)]
pub struct RuntimeStateEntry {
    pub generation: u64,
    pub health: RuntimeHealth,
    pub probe_lease_until: Option<u128>,
    pub transient_backoff_step: u8,
}

impl Default for RuntimeStateEntry {
    fn default() -> (r: Self)
        ensures
            r == (RuntimeStateEntry {
                generation: 0,
                health: RuntimeHealth::Active,
                probe_lease_until: None,
                transient_backoff_step: 0,
            }),
    {
        RuntimeStateEntry {
            generation: 0,
            health: RuntimeHealth::Active,
            probe_lease_until: None,
            transient_backoff_step: 0,
        }
    }
}

/// Leave to use a target, bound to the generation that was read.
#[derive(Clone, Copy, Debug, PartialEq, Eq, Structural)]
pub struct StatePermit {
    pub generation: u64,
    pub probe: bool,
    pub transient_backoff_step: u8,
}

#[derive(Clone, Copy, Debug, PartialEq, Eq, Structural)]
pub enum PermitAvailability {
    Permit(StatePermit),
    CoolingDown { until: u128 },
    ProbeBusy,
    Disabled,
}

#[derive(Clone, Copy, Debug, PartialEq, Eq, Structural)]
pub enum ScopeError {
    Deadline,
    Cancelled,
}

#[derive(Clone, Copy, Debug, PartialEq, Eq, Structural)]
pub enum RuntimeStateError {
    Unavailable,
}

#[derive(Clone, Copy, Debug, PartialEq, Eq, Structural)]
pub enum StateAccessError {
    Scope(ScopeError),
    Store(RuntimeStateError),
    Conflict,
    InvalidTransition,
}

impl StateAccessError {
    pub open spec fn message_text(self) -> Seq<char> {
        match self {
            StateAccessError::Scope(_) => {
                "runtime state operation exceeded the shared request scope"@
            },
            StateAccessError::Store(_) => "runtime state authority failed"@,
            StateAccessError::Conflict => {
                "runtime state generation changed during a required transition"@
            },
            StateAccessError::InvalidTransition => "runtime state transition is invalid"@,
        }
    }

    pub fn message(&self) -> (r: String)
        ensures
            r@ == self.message_text(),
    {
        match self {
            StateAccessError::Scope(_) => {
                "runtime state operation exceeded the shared request scope".to_owned()
            },
            StateAccessError::Store(_) => "runtime state authority failed".to_owned(),
            StateAccessError::Conflict => {
                "runtime state generation changed during a required transition".to_owned()
            },
            StateAccessError::InvalidTransition => "runtime state transition is invalid".to_owned(),
        }
    }
}

#[derive(Clone, Copy, Debug, PartialEq, Eq, Structural)]
pub enum ProbeLeaseOutcome {
    Acquired { generation: u64 },
    Busy,
    Conflict,
}

#[derive(Clone, Copy, Debug, PartialEq, Eq, Structural)]
pub enum CasOutcome {
    Applied { generation: u64 },
    Conflict,
}

/// The key of one stored entry.
#[derive(Debug)]
pub enum RuntimeStateKey {
    Binding { stable_target: String },
    Credential { stable_target: String, credential_ref: String, key_id: String, generation: u64 },
}

pub enum StateKeyView {
    Binding { stable_target: Seq<char> },
    Credential {
        stable_target: Seq<char>,
        credential_ref: Seq<char>,
        key_id: Seq<char>,
        generation: u64,
    },
}

impl View for RuntimeStateKey {
    type V = StateKeyView;

    open spec fn view(&self) -> StateKeyView {
        match *self {
            RuntimeStateKey::Binding { stable_target } => StateKeyView::Binding {
                stable_target: stable_target@,
            },
            RuntimeStateKey::Credential { stable_target, credential_ref, key_id, generation } => {
                StateKeyView::Credential {
                    stable_target: stable_target@,
                    credential_ref: credential_ref@,
                    key_id: key_id@,
                    generation,
                }
            },
        }
    }
}

/// The binding permit of an attempt and, where it uses a credential, that credential's permit.
#[derive(Debug)]
pub struct OwnedAttemptStatePermits {
    pub binding_key: RuntimeStateKey,
    pub binding_permit: StatePermit,
    pub credential: Option<(RuntimeStateKey, StatePermit)>,
}

impl OwnedAttemptStatePermits {
    pub fn new(
        binding_key: RuntimeStateKey,
        binding_permit: StatePermit,
        credential_key: RuntimeStateKey,
        credential_permit: StatePermit,
    ) -> (r: Self)
        ensures
            r.binding_key == binding_key,
            r.binding_permit == binding_permit,
            r.credential == Some((credential_key, credential_permit)),
    {
        OwnedAttemptStatePermits {
            binding_key,
            binding_permit,
            credential: Some((credential_key, credential_permit)),
        }
    }

    pub fn without_credential(
        binding_key: RuntimeStateKey,
        binding_permit: StatePermit,
    ) -> (r: Self)
        ensures
            r.binding_key == binding_key,
            r.binding_permit == binding_permit,
            r.credential is None,
    {
        OwnedAttemptStatePermits { binding_key, binding_permit, credential: None }
    }

    pub open spec fn permits_view(&self) -> AttemptStatePermits {
        AttemptStatePermits {
            binding: self.binding_permit,
            credential: match self.credential {
                Some(pair) => Some(pair.1),
                None => None,
            },
        }
    }

    pub fn borrowed(&self) -> (r: AttemptStatePermits)
        ensures
            r == self.permits_view(),
    {
        AttemptStatePermits {
            binding: self.binding_permit,
            credential: match &self.credential {
                Some(pair) => Some(pair.1),
                None => None,
            },
        }
    }
}

/// The permits of one attempt, apart from the keys they belong to.
#[derive(Clone, Copy, Debug, PartialEq, Eq, Structural)]
pub struct AttemptStatePermits {
    pub binding: StatePermit,
    pub credential: Option<StatePermit>,
}

/// Which of an attempt's entries a write goes to.
#[derive(Clone, Copy, Debug, PartialEq, Eq, Structural)]
pub enum PermitTarget {
    Binding,
    Credential,
}

/// The key that separates the endpoints of one binding: the binding, a slash and the first
/// thirty-two bytes behind `sha256:` of the profile digest, where they end between characters.
pub open spec fn endpoint_state_key(
    stable_binding_id: Seq<char>,
    profile_digest: Seq<char>,
) -> Option<Seq<char>> {
    match after_prefix(profile_digest, "sha256:"@) {
        Some(rest) => match byte_prefix(rest, 32) {
            Some(part) => Some(stable_binding_id.push('/') + part),
            None => None,
        },
        None => None,
    }
}

pub fn native_endpoint_state_key(stable_binding_id: &str, profile_digest: &str) -> (r: Option<
    String,
>)
    ensures
        super::facts::text_view(r) == endpoint_state_key(stable_binding_id@, profile_digest@),
{
    let rest = match strip_prefix(profile_digest, "sha256:") {
        Some(rest) => rest,
        None => return None,
    };
    let part = match take_bytes(rest.as_str(), 32) {
        Some(part) => part,
        None => return None,
    };
    let mut key = stable_binding_id.to_owned();
    key.push('/');
    key.append(part.as_str());
    Some(key)
}

/// The store call that asks for the recovery probe of a rested target.
#[derive(Clone, Copy, Debug, PartialEq, Eq, Structural)]
pub struct ProbeLeaseRequest {
    pub expected_generation: u64,
    pub now: u128,
    pub lease_duration: u128,
    pub transient_backoff_step: u8,
}

#[derive(Clone, Copy, Debug, PartialEq, Eq, Structural)]
pub enum PermitStep {
    Available(PermitAvailability),
    AcquireProbeLease(ProbeLeaseRequest),
}

/// What an entry that was read allows. A target that still rests at `checked_at` is not used; one
/// that has rested needs the probe lease, for the whole rest of the attempt.
pub open spec fn permit_status(
    entry: RuntimeStateEntry,
    checked_at: u128,
    now: u128,
    deadline: u128,
) -> Result<PermitStep, StateAccessError> {
    match entry.health {
        RuntimeHealth::Active => Ok(
            PermitStep::Available(
                PermitAvailability::Permit(
                    StatePermit {
                        generation: entry.generation,
                        probe: false,
                        transient_backoff_step: entry.transient_backoff_step,
                    },
                ),
            ),
        ),
        RuntimeHealth::Disabled => Ok(PermitStep::Available(PermitAvailability::Disabled)),
        RuntimeHealth::CoolingDown { until } => if until > checked_at {
            Ok(PermitStep::Available(PermitAvailability::CoolingDown { until }))
        } else if deadline <= now {
            Err(StateAccessError::Scope(ScopeError::Deadline))
        } else {
            Ok(
                PermitStep::AcquireProbeLease(
                    ProbeLeaseRequest {
                        expected_generation: entry.generation,
                        now,
                        lease_duration: (deadline - now) as u128,
                        transient_backoff_step: entry.transient_backoff_step,
                    },
                ),
            )
        },
    }
}

pub fn acquire_target_permit_status(
    entry: &RuntimeStateEntry,
    checked_at: u128,
    now: u128,
    deadline: u128,
) -> (r: Result<PermitStep, StateAccessError>)
    ensures
        r == permit_status(*entry, checked_at, now, deadline),
{
    match entry.health {
        RuntimeHealth::Active => Ok(
            PermitStep::Available(
                PermitAvailability::Permit(
                    StatePermit {
                        generation: entry.generation,
                        probe: false,
                        transient_backoff_step: entry.transient_backoff_step,
                    },
                ),
            ),
        ),
        RuntimeHealth::Disabled => Ok(PermitStep::Available(PermitAvailability::Disabled)),
        RuntimeHealth::CoolingDown { until } => {
            if until > checked_at {
                return Ok(PermitStep::Available(PermitAvailability::CoolingDown { until }));
            }
            if deadline <= now {
                return Err(StateAccessError::Scope(ScopeError::Deadline));
            }
            Ok(
                PermitStep::AcquireProbeLease(
                    ProbeLeaseRequest {
                        expected_generation: entry.generation,
                        now,
                        lease_duration: deadline - now,
                        transient_backoff_step: entry.transient_backoff_step,
                    },
                ),
            )
        },
    }
}

/// What the answer to a probe lease request allows.
pub open spec fn probe_lease_status(
    request: ProbeLeaseRequest,
    outcome: ProbeLeaseOutcome,
) -> Result<PermitAvailability, StateAccessError> {
    match outcome {
        ProbeLeaseOutcome::Acquired { generation } => Ok(
            PermitAvailability::Permit(
                StatePermit {
                    generation,
                    probe: true,
                    transient_backoff_step: request.transient_backoff_step,
                },
            ),
        ),
        ProbeLeaseOutcome::Busy => Ok(PermitAvailability::ProbeBusy),
        ProbeLeaseOutcome::Conflict => Err(StateAccessError::Conflict),
    }
}

/// Takes the answer to a probe lease; a store that failed, or was not asked in time, fails it.
pub fn finish_probe_lease(
    request: ProbeLeaseRequest,
    outcome: Result<ProbeLeaseOutcome, StateAccessError>,
) -> (r: Result<PermitAvailability, StateAccessError>)
    ensures
        r == match outcome {
            Ok(outcome) => probe_lease_status(request, outcome),
            Err(error) => Err(error),
        },
{
    let outcome = match outcome {
        Ok(outcome) => outcome,
        Err(error) => {
            return Err(error);
        },
    };
    match outcome {
        ProbeLeaseOutcome::Acquired { generation } => Ok(
            PermitAvailability::Permit(
                StatePermit {
                    generation,
                    probe: true,
                    transient_backoff_step: request.transient_backoff_step,
                },
            ),
        ),
        ProbeLeaseOutcome::Busy => Ok(PermitAvailability::ProbeBusy),
        ProbeLeaseOutcome::Conflict => Err(StateAccessError::Conflict),
    }
}

/// The permit where there is one.
pub fn acquire_target_permit(availability: PermitAvailability) -> (r: Option<StatePermit>)
    ensures
        r == match availability {
            PermitAvailability::Permit(permit) => Some(permit),
            _ => None,
        },
{
    match availability {
        PermitAvailability::Permit(permit) => Some(permit),
        PermitAvailability::CoolingDown { .. }
        | PermitAvailability::ProbeBusy
        | PermitAvailability::Disabled => None,
    }
}

/// The failures whose rest doubles from one to the next.
pub open spec fn backs_off(class: AttemptFailureClass) -> bool {
    class is Transient || class is Timeout || class is Disconnect || class
        == AttemptFailureClass::PreOutputStream(PreOutputStreamClass::Transient)
}

pub fn uses_transient_backoff(failure: &AttemptFailure) -> (r: bool)
    ensures
        r == backs_off(failure.class),
{
    match failure.class {
        AttemptFailureClass::Transient
        | AttemptFailureClass::Timeout(_)
        | AttemptFailureClass::Disconnect
        | AttemptFailureClass::PreOutputStream(PreOutputStreamClass::Transient) => true,
        _ => false,
    }
}

/// The rest of a backoff step: two seconds, doubling, and thirty from the fifth step on.
pub open spec fn backoff_nanos(step: u8) -> u128 {
    if step <= 1 {
        2_000_000_000
    } else if step == 2 {
        4_000_000_000
    } else if step == 3 {
        8_000_000_000
    } else if step == 4 {
        16_000_000_000
    } else {
        30_000_000_000
    }
}

pub fn transient_backoff_delay(step: u8) -> (r: u128)
    ensures
        r == backoff_nanos(step),
{
    match step {
        0 | 1 => 2_000_000_000,
        2 => 4_000_000_000,
        3 => 8_000_000_000,
        4 => 16_000_000_000,
        _ => 30_000_000_000,
    }
}

/// A conditional write of one entry.
#[derive(Clone, Copy, Debug, PartialEq, Eq, Structural)]
pub struct StateWrite {
    pub target: PermitTarget,
    pub expected_generation: u64,
    pub next: RuntimeStateEntry,
}

/// The entry that a failure concerns and the permit held for it. Without a credential permit a
/// credential failure falls on the binding.
pub open spec fn failed_permit(
    permits: AttemptStatePermits,
    scope: FailureStateScope,
) -> (PermitTarget, StatePermit) {
    match (scope, permits.credential) {
        (FailureStateScope::Credential, Some(permit)) => (PermitTarget::Credential, permit),
        _ => (PermitTarget::Binding, permits.binding),
    }
}

/// The step that follows `step` in the backoff: at most the fifth.
pub open spec fn next_step(step: u8) -> u8 {
    if step >= 5 {
        5
    } else {
        (step + 1) as u8
    }
}

/// How long a failure makes its target rest, and the backoff step it leaves.
pub open spec fn failure_rest(
    failure: AttemptFailure,
    scope: FailureStateScope,
    permit: StatePermit,
    policy: RuntimeCooldownPolicy,
) -> (u128, u8) {
    match failure.retry_after {
        Some(duration) => (duration, 0),
        None => match scope {
            FailureStateScope::Binding => if backs_off(failure.class) {
                (
                    backoff_nanos(next_step(permit.transient_backoff_step)),
                    next_step(permit.transient_backoff_step),
                )
            } else {
                (policy.binding, 0)
            },
            FailureStateScope::Credential => (policy.credential_quota, 0),
        },
    }
}

/// The health and the backoff step that a failure leaves at `now`.
pub open spec fn failure_health(
    failure: AttemptFailure,
    scope: FailureStateScope,
    permit: StatePermit,
    policy: RuntimeCooldownPolicy,
    now: u128,
) -> Option<(RuntimeHealth, u8)> {
    if failure.disables_credential {
        Some((RuntimeHealth::Disabled, 0))
    } else {
        let rest = failure_rest(failure, scope, permit, policy);
        match instant_after(now, rest.0) {
            Some(until) => Some((RuntimeHealth::CoolingDown { until }, rest.1)),
            None => None,
        }
    }
}

/// The write that a failure calls for: none where it touches no state, and an error where the
/// clock or the generation counter is at its end.
pub open spec fn failure_write(
    permits: AttemptStatePermits,
    failure: AttemptFailure,
    policy: RuntimeCooldownPolicy,
    now: u128,
) -> Result<Option<StateWrite>, StateAccessError> {
    match failure.state_scope {
        None => Ok(None),
        Some(scope) => {
            let (target, permit) = failed_permit(permits, scope);
            match failure_health(failure, scope, permit, policy, now) {
                None => Err(StateAccessError::InvalidTransition),
                Some((health, step)) => if permit.generation == u64::MAX {
                    Err(StateAccessError::InvalidTransition)
                } else {
                    Ok(
                        Some(
                            StateWrite {
                                target,
                                expected_generation: permit.generation,
                                next: RuntimeStateEntry {
                                    generation: (permit.generation + 1) as u64,
                                    health,
                                    probe_lease_until: None,
                                    transient_backoff_step: step,
                                },
                            },
                        ),
                    )
                },
            }
        },
    }
}

pub fn record_failure_at(
    permits: AttemptStatePermits,
    failure: &AttemptFailure,
    policy: &RuntimeCooldownPolicy,
    now: u128,
) -> (r: Result<Option<StateWrite>, StateAccessError>)
    ensures
        r == failure_write(permits, *failure, *policy, now),
{
    let state_scope = match failure.state_scope {
        Some(scope) => scope,
        None => return Ok(None),
    };
    let (target, permit) = match state_scope {
        FailureStateScope::Credential => match permits.credential {
            Some(permit) => (PermitTarget::Credential, permit),
            None => (PermitTarget::Binding, permits.binding),
        },
        FailureStateScope::Binding => (PermitTarget::Binding, permits.binding),
    };
    let (health, transient_backoff_step): (RuntimeHealth, u8) = if failure.disables_credential {
        (RuntimeHealth::Disabled, 0)
    } else {
        let (duration, step): (u128, u8) = match (state_scope, failure.retry_after) {
            (_, Some(duration)) => (duration, 0),
            (FailureStateScope::Binding, None) => if uses_transient_backoff(failure) {
                let step: u8 = if permit.transient_backoff_step >= 5 {
                    5
                } else {
                    permit.transient_backoff_step + 1
                };
                (transient_backoff_delay(step), step)
            } else {
                (policy.binding, 0)
            },
            (FailureStateScope::Credential, None) => (policy.credential_quota, 0),
        };
        match checked_instant_after(now, duration) {
            Some(until) => (RuntimeHealth::CoolingDown { until }, step),
            None => return Err(StateAccessError::InvalidTransition),
        }
    };
    match permit.generation.checked_add(1) {
        Some(generation) => Ok(
            Some(
                StateWrite {
                    target,
                    expected_generation: permit.generation,
                    next: RuntimeStateEntry {
                        generation,
                        health,
                        probe_lease_until: None,
                        transient_backoff_step,
                    },
                },
            ),
        ),
        None => Err(StateAccessError::InvalidTransition),
    }
}

/// Whether the answer to a conditional write is the one required: the next generation.
pub open spec fn write_applied(expected_generation: u64, outcome: CasOutcome) -> bool {
    outcome matches CasOutcome::Applied { generation } && generation == (if expected_generation
        == u64::MAX {
        u64::MAX as int
    } else {
        expected_generation + 1
    })
}

/// Accepts the answer to a conditional write only where it applied the next generation. A store
/// that failed, or was not asked in time, fails the write.
pub fn finish_state_write(
    expected_generation: u64,
    outcome: Result<CasOutcome, StateAccessError>,
) -> (r: Result<(), StateAccessError>)
    ensures
        r == match outcome {
            Err(error) => Err::<(), _>(error),
            Ok(outcome) => if write_applied(expected_generation, outcome) {
                Ok(())
            } else {
                Err(StateAccessError::Conflict)
            },
        },
{
    let outcome = match outcome {
        Ok(outcome) => outcome,
        Err(error) => {
            return Err(error);
        },
    };
    match outcome {
        CasOutcome::Applied { generation } => if generation == expected_generation.saturating_add(
            1,
        ) {
            Ok(())
        } else {
            Err(StateAccessError::Conflict)
        },
        CasOutcome::Conflict => Err(StateAccessError::Conflict),
    }
}

/// Whether a permit still holds on the entry that was read again at `now`.
pub open spec fn permit_holds(
    current: RuntimeStateEntry,
    permit: StatePermit,
    now: u128,
) -> bool {
    &&& current.generation == permit.generation
    &&& permit.probe ==> (current.probe_lease_until matches Some(until) && until > now)
    &&& !permit.probe ==> current.health is Active && current.probe_lease_until is None
}

pub fn validate_permit(current: &RuntimeStateEntry, permit: StatePermit, now: u128) -> (r: Result<
    (),
    StateAccessError,
>)
    ensures
        r == (if permit_holds(*current, permit, now) {
            Ok(())
        } else {
            Err(StateAccessError::Conflict)
        }),
{
    let lease_ended = match current.probe_lease_until {
        Some(until) => until <= now,
        None => true,
    };
    let active = match current.health {
        RuntimeHealth::Active => true,
        _ => false,
    };
    if current.generation != permit.generation || (permit.probe && lease_ended) || (!permit.probe
        && (!active || current.probe_lease_until.is_some())) {
        return Err(StateAccessError::Conflict);
    }
    Ok(())
}

/// Holds the binding permit, and the credential permit where there is one, against the entries
/// that were read again, each at the instant of its own reading.
pub fn validate_attempt_permits(
    permits: AttemptStatePermits,
    binding: (&RuntimeStateEntry, u128),
    credential: Option<(&RuntimeStateEntry, u128)>,
) -> (r: Result<(), StateAccessError>)
    requires
        permits.credential is Some ==> credential is Some,
    ensures
        r == (if permit_holds(*binding.0, permits.binding, binding.1)
            && (permits.credential matches Some(permit) ==> permit_holds(
            *(credential->0).0,
            permit,
            (credential->0).1,
        )) {
            Ok(())
        } else {
            Err(StateAccessError::Conflict)
        }),
{
    match validate_permit(binding.0, permits.binding, binding.1) {
        Ok(()) => {},
        Err(error) => return Err(error),
    }
    match (permits.credential, credential) {
        (Some(permit), Some(read)) => validate_permit(read.0, permit, read.1),
        _ => Ok(()),
    }
}

/// The write that a success calls for on one entry, read again at `now`: none for an ordinary
/// permit, and the return to active for a probe.
pub open spec fn success_write(
    target: PermitTarget,
    current: RuntimeStateEntry,
    permit: StatePermit,
    now: u128,
) -> Result<Option<StateWrite>, StateAccessError> {
    if !permit_holds(current, permit, now) {
        Err(StateAccessError::Conflict)
    } else if !permit.probe {
        Ok(None)
    } else if permit.generation == u64::MAX {
        Err(StateAccessError::InvalidTransition)
    } else {
        Ok(
            Some(
                StateWrite {
                    target,
                    expected_generation: permit.generation,
                    next: RuntimeStateEntry {
                        generation: (permit.generation + 1) as u64,
                        health: RuntimeHealth::Active,
                        probe_lease_until: None,
                        transient_backoff_step: 0,
                    },
                },
            ),
        )
    }
}

pub fn confirm_success(
    target: PermitTarget,
    current: &RuntimeStateEntry,
    permit: StatePermit,
    now: u128,
) -> (r: Result<Option<StateWrite>, StateAccessError>)
    ensures
        r == success_write(target, *current, permit, now),
{
    match validate_permit(current, permit, now) {
        Ok(()) => {},
        Err(error) => return Err(error),
    }
    if !permit.probe {
        return Ok(None);
    }
    match permit.generation.checked_add(1) {
        Some(generation) => Ok(
            Some(
                StateWrite {
                    target,
                    expected_generation: permit.generation,
                    next: RuntimeStateEntry {
                        generation,
                        health: RuntimeHealth::Active,
                        probe_lease_until: None,
                        transient_backoff_step: 0,
                    },
                },
            ),
        ),
        None => Err(StateAccessError::InvalidTransition),
    }
}

/// The entry after a conditional write: the new one where the generation is the expected one.
pub open spec fn swapped(entry: RuntimeStateEntry, write: StateWrite) -> RuntimeStateEntry {
    if entry.generation == write.expected_generation {
        write.next
    } else {
        entry
    }
}

/// A failure that is written ends every permit of the entry it was written to: no permit of an
/// earlier generation holds afterwards, at any instant.
pub proof fn failure_write_ends_earlier_permits(
    permits: AttemptStatePermits,
    failure: AttemptFailure,
    policy: RuntimeCooldownPolicy,
    now: u128,
    entry: RuntimeStateEntry,
    permit: StatePermit,
    later: u128,
)
    requires
        failure_write(permits, failure, policy, now) matches Ok(Some(write))
            && entry.generation == write.expected_generation && permit.generation
            <= write.expected_generation,
    ensures
        failure_write(permits, failure, policy, now) matches Ok(Some(write))
            && !permit_holds(swapped(entry, write), permit, later),
{
}

/// Of two writes that expect the same generation only the first takes effect.
pub proof fn concurrent_writes_apply_once(
    entry: RuntimeStateEntry,
    first: StateWrite,
    second: StateWrite,
)
    requires
        first.expected_generation == second.expected_generation,
        first.next.generation == first.expected_generation + 1,
    ensures
        entry.generation == first.expected_generation ==> swapped(swapped(entry, first), second)
            == first.next,
        entry.generation != first.expected_generation ==> swapped(swapped(entry, first), second)
            == entry,
{
}

/// A target that a failure sent to rest is not used before its rest is over, and needs the probe
/// lease afterwards.
pub proof fn resting_target_is_not_used_early(
    permits: AttemptStatePermits,
    failure: AttemptFailure,
    policy: RuntimeCooldownPolicy,
    now: u128,
    checked_at: u128,
    read_at: u128,
    deadline: u128,
)
    requires
        failure_write(permits, failure, policy, now) matches Ok(Some(write))
            && write.next.health is CoolingDown,
        read_at < deadline,
    ensures
        failure_write(permits, failure, policy, now) matches Ok(Some(write)) && {
            let scope = failure.state_scope->0;
            let rest = failure_rest(failure, scope, failed_permit(permits, scope).1, policy).0;
            let step = permit_status(write.next, checked_at, read_at, deadline);
            &&& checked_at < now + rest ==> step == Ok::<PermitStep, StateAccessError>(
                PermitStep::Available(
                    PermitAvailability::CoolingDown { until: (now + rest) as u128 },
                ),
            )
            &&& checked_at >= now + rest ==> (step matches Ok(
                PermitStep::AcquireProbeLease(request),
            ) && request.lease_duration == deadline - read_at)
        },
{
}

/// A confirmed probe makes its target available again to everyone, with its backoff forgotten.
pub proof fn confirmed_probe_reactivates_target(
    target: PermitTarget,
    current: RuntimeStateEntry,
    permit: StatePermit,
    now: u128,
    checked_at: u128,
    read_at: u128,
    deadline: u128,
)
    requires
        permit.probe,
        permit_holds(current, permit, now),
        permit.generation < u64::MAX,
    ensures
        success_write(target, current, permit, now) matches Ok(Some(write)) && permit_status(
            swapped(current, write),
            checked_at,
            read_at,
            deadline,
        ) == Ok::<PermitStep, StateAccessError>(
            PermitStep::Available(
                PermitAvailability::Permit(
                    StatePermit {
                        generation: (permit.generation + 1) as u64,
                        probe: false,
                        transient_backoff_step: 0,
                    },
                ),
            ),
        ),
{
}

/// The rest of a backoff never shrinks from one failure to the next and never exceeds thirty
/// seconds.
pub proof fn backoff_is_monotone_and_bounded(step: u8)
    ensures
        backoff_nanos(step) <= backoff_nanos(next_step(step)),
        backoff_nanos(step) <= 30_000_000_000,
        1 <= next_step(step) <= 5,
{
}

} // verus!
