//! What becomes of a binding or a credential after a failure, told by the failure alone: for how
//! long it rests, who may use it meanwhile, and what brings it back.

use vstd::prelude::*;
use crate::text::{byte_prefix, utf8_width};
use super::facts::{
    AttemptFailure, AttemptFailureClass, FailureStateScope, PreOutputStreamClass,
    CLOCK_LIMIT_NANOS,
};
use super::state::{
    backoff_nanos, endpoint_state_key, failure_write, finish_probe_lease, finish_state_write,
    permit_holds, permit_status, success_write, swapped, validate_attempt_permits,
    AttemptStatePermits, CasOutcome, PermitAvailability, PermitStep, PermitTarget,
    ProbeLeaseOutcome, ProbeLeaseRequest, RuntimeCooldownPolicy, RuntimeHealth, RuntimeStateEntry,
    ScopeError, StateAccessError, StatePermit, StateWrite,
};

verus! {

/// Whether an entry rests for a time from an instant on, with a backoff step.
pub open spec fn rests(entry: RuntimeStateEntry, now: u128, nanos: int, step: u8) -> bool {
    &&& entry.health matches RuntimeHealth::CoolingDown { until } && until == now + nanos
    &&& entry.transient_backoff_step == step
    &&& entry.probe_lease_until is None
}

/// Whether a failure is one of those that pass: each in a row doubles the rest.
pub open spec fn is_passing(class: AttemptFailureClass) -> bool {
    match class {
        AttemptFailureClass::Transient => true,
        AttemptFailureClass::Timeout(_) => true,
        AttemptFailureClass::Disconnect => true,
        AttemptFailureClass::PreOutputStream(PreOutputStreamClass::Transient) => true,
        _ => false,
    }
}

/// A delay that the provider named counts, whatever failed: the entry that is written rests until
/// exactly that long after the failure, and its backoff starts anew. Neither the policy nor earlier
/// failures bear on it.
pub proof fn named_delays_count(
    permits: AttemptStatePermits,
    failure: AttemptFailure,
    policy: RuntimeCooldownPolicy,
    now: u128,
)
    requires
        failure.state_scope is Some,
        !failure.disables_credential,
        failure.retry_after is Some,
    ensures
        match failure_write(permits, failure, policy, now) {
            Ok(Some(write)) => rests(write.next, now, failure.retry_after->0 as int, 0),
            Ok(None) => false,
            Err(_) => true,
        },
{
}

/// Without a named delay a credential rests as the policy says of credentials, and so does a
/// binding as the policy says of bindings, unless its failure is one that passes. Both backoffs
/// start anew.
pub proof fn policies_rest_what_names_no_delay(
    permits: AttemptStatePermits,
    failure: AttemptFailure,
    policy: RuntimeCooldownPolicy,
    now: u128,
)
    requires
        !failure.disables_credential,
        failure.retry_after is None,
    ensures
        failure.state_scope == Some(FailureStateScope::Credential) ==> match failure_write(
            permits,
            failure,
            policy,
            now,
        ) {
            Ok(Some(write)) => rests(write.next, now, policy.credential_quota as int, 0),
            Ok(None) => false,
            Err(_) => true,
        },
        failure.state_scope == Some(FailureStateScope::Binding) && !is_passing(failure.class)
            ==> match failure_write(permits, failure, policy, now) {
            Ok(Some(write)) => rests(write.next, now, policy.binding as int, 0),
            Ok(None) => false,
            Err(_) => true,
        },
{
}

/// Failures of a binding that pass, and name no delay, make it rest twice as long each time: two
/// seconds first, then four, eight and sixteen, and thirty from then on. The step that is written
/// is one more than that of the permit, and five at most.
pub proof fn passing_failures_double_the_rest(
    permits: AttemptStatePermits,
    failure: AttemptFailure,
    policy: RuntimeCooldownPolicy,
    now: u128,
)
    requires
        failure.state_scope == Some(FailureStateScope::Binding),
        !failure.disables_credential,
        failure.retry_after is None,
        is_passing(failure.class),
    ensures
        ({
            let earlier = permits.binding.transient_backoff_step;
            match failure_write(permits, failure, policy, now) {
                Ok(Some(write)) => {
                    &&& earlier == 0 ==> rests(write.next, now, 2_000_000_000, 1)
                    &&& earlier == 1 ==> rests(write.next, now, 4_000_000_000, 2)
                    &&& earlier == 2 ==> rests(write.next, now, 8_000_000_000, 3)
                    &&& earlier == 3 ==> rests(write.next, now, 16_000_000_000, 4)
                    &&& earlier >= 4 ==> rests(write.next, now, 30_000_000_000, 5)
                },
                Ok(None) => false,
                Err(_) => true,
            }
        }),
{
}

/// Two failures of a binding in a row that pass: the second makes it rest twice as long as the
/// first, or thirty seconds.
pub proof fn each_passing_failure_doubles_the_last(step: u8)
    requires
        1 <= step < 5,
    ensures
        backoff_nanos((step + 1) as u8) == 2 * backoff_nanos(step) || backoff_nanos(
            (step + 1) as u8,
        ) == 30_000_000_000 && step == 4,
        backoff_nanos(1) == 2_000_000_000,
{
}

/// A failure that disables its credential leaves the entry disabled, whatever delay it names, and
/// it is then available to nobody at any time.
pub proof fn disabled_entries_stay_away(
    permits: AttemptStatePermits,
    failure: AttemptFailure,
    policy: RuntimeCooldownPolicy,
    now: u128,
    checked_at: u128,
    read_at: u128,
    deadline: u128,
)
    requires
        failure.state_scope is Some,
        failure.disables_credential,
    ensures
        match failure_write(permits, failure, policy, now) {
            Ok(Some(write)) => {
                &&& write.next.health == RuntimeHealth::Disabled
                &&& write.next.transient_backoff_step == 0
                &&& permit_status(write.next, checked_at, read_at, deadline) == Ok::<
                    _,
                    StateAccessError,
                >(PermitStep::Available(PermitAvailability::Disabled))
            },
            Ok(None) => false,
            Err(error) => error == StateAccessError::InvalidTransition,
        },
{
}

/// A failure is written where it belongs: one of a credential to the credential, where the attempt
/// holds a permit for one, and every other to the binding. The write expects the generation of that
/// permit and makes the next.
pub proof fn failures_are_written_where_they_belong(
    permits: AttemptStatePermits,
    failure: AttemptFailure,
    policy: RuntimeCooldownPolicy,
    now: u128,
    write: StateWrite,
)
    requires
        failure_write(permits, failure, policy, now) == Ok::<_, StateAccessError>(Some(write)),
    ensures
        failure.state_scope == Some(FailureStateScope::Credential) && permits.credential is Some
            ==> write.target == PermitTarget::Credential && write.expected_generation
            == permits.credential->0.generation,
        failure.state_scope == Some(FailureStateScope::Binding) || permits.credential is None
            ==> write.target == PermitTarget::Binding && write.expected_generation
            == permits.binding.generation,
        write.next.generation == write.expected_generation + 1,
{
}

/// A failure that touches no state writes nothing, and every other is written, unless the counter
/// of the entry or the clock is at its end.
pub proof fn failures_are_written(
    permits: AttemptStatePermits,
    failure: AttemptFailure,
    policy: RuntimeCooldownPolicy,
    now: u128,
)
    ensures
        failure_write(permits, failure, policy, now) == Ok::<_, StateAccessError>(
            None::<StateWrite>,
        ) <==> failure.state_scope is None,
        failure_write(permits, failure, policy, now) matches Err(error) ==> error
            == StateAccessError::InvalidTransition,
        permits.binding.generation < u64::MAX && (permits.credential matches Some(permit)
            ==> permit.generation < u64::MAX) && now + 30_000_000_000 <= CLOCK_LIMIT_NANOS && now
            + policy.binding <= CLOCK_LIMIT_NANOS && now + policy.credential_quota
            <= CLOCK_LIMIT_NANOS && (failure.retry_after matches Some(delay) ==> now + delay
            <= CLOCK_LIMIT_NANOS) ==> failure_write(permits, failure, policy, now) is Ok,
        failure.state_scope is Some && failure.retry_after is Some && !failure.disables_credential
            && now + failure.retry_after->0 > CLOCK_LIMIT_NANOS ==> failure_write(
            permits,
            failure,
            policy,
            now,
        ) is Err,
{
}

/// An active entry is available to anyone, at any time: the permit carries its generation and its
/// backoff and is no probe.
pub proof fn active_entries_are_available(
    entry: RuntimeStateEntry,
    checked_at: u128,
    now: u128,
    deadline: u128,
)
    requires
        entry.health == RuntimeHealth::Active,
    ensures
        permit_status(entry, checked_at, now, deadline) matches Ok(
            PermitStep::Available(PermitAvailability::Permit(permit)),
        ) && permit.generation == entry.generation && !permit.probe
            && permit.transient_backoff_step == entry.transient_backoff_step && (permit_holds(
            entry,
            permit,
            now,
        ) <==> entry.probe_lease_until is None),
{
}

/// An entry that rests is available to nobody until its rest is over; the answer tells when that
/// is. From that instant on it takes the probe lease, for all the time that is left and under the
/// generation that was read; without time left it fails.
pub proof fn resting_entries_need_a_probe(
    entry: RuntimeStateEntry,
    until: u128,
    checked_at: u128,
    now: u128,
    deadline: u128,
)
    requires
        entry.health == (RuntimeHealth::CoolingDown { until }),
    ensures
        ({
            let step = permit_status(entry, checked_at, now, deadline);
            &&& checked_at < until ==> step == Ok::<_, StateAccessError>(
                PermitStep::Available(PermitAvailability::CoolingDown { until }),
            )
            &&& checked_at >= until && now < deadline ==> (step matches Ok(
                PermitStep::AcquireProbeLease(request),
            ) && request.now == now && now + request.lease_duration == deadline
                && request.expected_generation == entry.generation
                && request.transient_backoff_step == entry.transient_backoff_step)
            &&& checked_at >= until && now >= deadline ==> step == Err::<PermitStep, _>(
                StateAccessError::Scope(ScopeError::Deadline),
            )
        }),
{
}

/// Only a store that granted the probe lease lets a request probe, under the generation that it
/// told and with the backoff so far; a lease that someone else holds is busy, and everything else
/// fails as it came.
pub proof fn probes_need_the_lease(
    request: ProbeLeaseRequest,
    outcome: Result<ProbeLeaseOutcome, StateAccessError>,
    r: Result<PermitAvailability, StateAccessError>,
)
    requires
        call_ensures(finish_probe_lease, (request, outcome), r),
    ensures
        r matches Ok(PermitAvailability::Permit(permit)) ==> {
            &&& permit.probe
            &&& permit.transient_backoff_step == request.transient_backoff_step
            &&& outcome == Ok::<_, StateAccessError>(
                ProbeLeaseOutcome::Acquired { generation: permit.generation },
            )
        },
        outcome matches Ok(ProbeLeaseOutcome::Acquired { .. }) ==> (r matches Ok(
            PermitAvailability::Permit(_),
        )),
        r == Ok::<_, StateAccessError>(PermitAvailability::ProbeBusy) <==> outcome == Ok::<
            _,
            StateAccessError,
        >(ProbeLeaseOutcome::Busy),
        outcome == Ok::<_, StateAccessError>(ProbeLeaseOutcome::Conflict) ==> r == Err::<
            PermitAvailability,
            _,
        >(StateAccessError::Conflict),
        outcome matches Err(error) ==> r == Err::<PermitAvailability, _>(error),
{
}

/// A conditional write counts only where the store says that it made exactly the next generation;
/// a failing store fails the write with its own error.
pub proof fn writes_need_the_next_generation(
    expected: u64,
    outcome: Result<CasOutcome, StateAccessError>,
    r: Result<(), StateAccessError>,
)
    requires
        call_ensures(finish_state_write, (expected, outcome), r),
        expected < u64::MAX,
    ensures
        r is Ok <==> outcome == Ok::<_, StateAccessError>(
            CasOutcome::Applied { generation: (expected + 1) as u64 },
        ),
        outcome matches Err(error) ==> r == Err::<(), _>(error),
        outcome is Ok && r is Err ==> r == Err::<(), _>(StateAccessError::Conflict),
{
}

/// An ordinary permit holds while the entry is active, under the same generation and without a
/// probe; a probe's permit while its lease runs, under the same generation. Nothing else matters.
pub proof fn permits_hold_on_what_they_were_given_for(
    current: RuntimeStateEntry,
    permit: StatePermit,
    now: u128,
)
    ensures
        current.generation != permit.generation ==> !permit_holds(current, permit, now),
        permit.probe && current.probe_lease_until is None ==> !permit_holds(current, permit, now),
        permit.probe && current.generation == permit.generation && (
        current.probe_lease_until matches Some(until)) ==> (permit_holds(current, permit, now)
            <==> now < current.probe_lease_until->0),
        !permit.probe && current.generation == permit.generation ==> (permit_holds(
            current,
            permit,
            now,
        ) <==> current.health == RuntimeHealth::Active && current.probe_lease_until is None),
{
}

/// An attempt goes on only under all of its permits: the binding's and, where there is one, the
/// credential's, each on the entry that was read for it.
pub proof fn attempts_need_all_their_permits(
    permits: AttemptStatePermits,
    binding: (&RuntimeStateEntry, u128),
    credential: Option<(&RuntimeStateEntry, u128)>,
    r: Result<(), StateAccessError>,
)
    requires
        call_ensures(validate_attempt_permits, (permits, binding, credential), r),
        permits.credential is Some ==> credential is Some,
    ensures
        r is Ok ==> binding.0.generation == permits.binding.generation,
        r is Ok && permits.credential is Some ==> (credential->0).0.generation
            == permits.credential->0.generation,
        r is Ok && !permits.binding.probe ==> binding.0.health == RuntimeHealth::Active,
        r is Ok && permits.credential is Some && !permits.credential->0.probe
            ==> (credential->0).0.health == RuntimeHealth::Active,
        permit_holds(*binding.0, permits.binding, binding.1) && permits.credential is None ==> r
            is Ok,
        r is Err ==> r == Err::<(), _>(StateAccessError::Conflict),
{
}

/// A success writes nothing under an ordinary permit. Under a probe's it makes the entry active
/// under the next generation, its backoff and its lease forgotten, so that anyone may use it and
/// the probe's own permit is spent.
pub proof fn successes_bring_a_probed_entry_back(
    target: PermitTarget,
    current: RuntimeStateEntry,
    permit: StatePermit,
    now: u128,
    later: u128,
)
    requires
        permit_holds(current, permit, now),
        permit.generation < u64::MAX,
    ensures
        !permit.probe ==> success_write(target, current, permit, now) == Ok::<_, StateAccessError>(
            None::<StateWrite>,
        ),
        permit.probe ==> (success_write(target, current, permit, now) matches Ok(Some(write)) && {
            let after = swapped(current, write);
            &&& write.target == target
            &&& write.expected_generation == current.generation
            &&& after.generation == current.generation + 1
            &&& after.health == RuntimeHealth::Active
            &&& after.probe_lease_until is None
            &&& after.transient_backoff_step == 0
            &&& !permit_holds(after, permit, later)
        }),
{
}

/// A success under a permit that no longer holds is a conflict and writes nothing.
pub proof fn late_successes_write_nothing(
    target: PermitTarget,
    current: RuntimeStateEntry,
    permit: StatePermit,
    now: u128,
)
    requires
        current.generation != permit.generation || (permit.probe && !(
        current.probe_lease_until matches Some(until) && now < until)) || (!permit.probe
            && current.health != RuntimeHealth::Active),
    ensures
        success_write(target, current, permit, now) == Err::<Option<StateWrite>, _>(
            StateAccessError::Conflict,
        ),
{
}

/// The key of an endpoint is its binding, a slash and the start of the profile's digest: the first
/// thirty-two characters of it where these are plain. So two endpoints of one binding share a key
/// only where their digests agree in these.
pub proof fn endpoints_are_told_apart(id: Seq<char>, digest: Seq<char>, other: Seq<char>)
    ensures
        endpoint_state_key(id, digest) matches Some(key) ==> {
            let part = key.skip(id.len() as int + 1);
            &&& key.take(id.len() as int) == id
            &&& key[id.len() as int] == '/'
            &&& digest.len() >= 7 + part.len()
            &&& digest.take(7 + part.len() as int) == "sha256:"@ + part
        },
        digest.len() >= 39 && digest.take(7) == "sha256:"@ && (forall|i: int|
            7 <= i < 39 ==> (#[trigger] digest[i] as u32) < 128) ==> endpoint_state_key(id, digest)
            == Some(id + "/"@ + digest.subrange(7, 39)),
        endpoint_state_key(id, digest) is Some && endpoint_state_key(id, digest)
            == endpoint_state_key(id, other) ==> {
            let part = endpoint_state_key(id, digest)->0.skip(id.len() as int + 1);
            digest.take(7 + part.len() as int) == other.take(7 + part.len() as int)
        },
{
    reveal_strlit("sha256:");
    reveal_strlit("/");
    lemma_endpoint_key(id, digest);
    lemma_endpoint_key(id, other);
    if digest.len() >= 39 && digest.take(7) == "sha256:"@ && (forall|i: int|
        7 <= i < 39 ==> (#[trigger] digest[i] as u32) < 128) {
        let rest = digest.skip(7);
        assert forall|i: int| 0 <= i < 32 implies (#[trigger] rest[i] as u32) < 128 by {
            assert(rest[i] == digest[7 + i]);
        }
        lemma_plain_prefix(rest, 32);
        assert(rest.take(32) =~= digest.subrange(7, 39));
        assert(id.push('/') + rest.take(32) =~= id + "/"@ + digest.subrange(7, 39));
    }
}

proof fn lemma_endpoint_key(id: Seq<char>, digest: Seq<char>)
    ensures
        endpoint_state_key(id, digest) matches Some(key) ==> {
            let part = key.skip(id.len() as int + 1);
            &&& key.take(id.len() as int) == id
            &&& key[id.len() as int] == '/'
            &&& digest.len() >= 7 + part.len()
            &&& digest.take(7 + part.len() as int) == "sha256:"@ + part
        },
{
    reveal_strlit("sha256:");
    if let Some(key) = endpoint_state_key(id, digest) {
        let rest = digest.skip(7);
        lemma_byte_prefix(rest, 32);
        let part = byte_prefix(rest, 32)->0;
        assert(key.skip(id.len() as int + 1) =~= part);
        assert(key.take(id.len() as int) =~= id);
        assert(digest.take(7 + part.len() as int) =~= "sha256:"@ + part) by {
            assert(digest.take(7) == "sha256:"@);
            assert forall|i: int| 0 <= i < 7 + part.len() implies digest[i] == ("sha256:"@
                + part)[i] by {
                if i < 7 {
                    assert(digest.take(7)[i] == digest[i]);
                } else {
                    assert(rest.take(part.len() as int)[i - 7] == digest[i]);
                }
            }
        }
    }
}

proof fn lemma_byte_prefix(text: Seq<char>, bytes: nat)
    ensures
        byte_prefix(text, bytes) matches Some(part) ==> part.len() <= text.len() && text.take(
            part.len() as int,
        ) == part,
    decreases text.len(),
{
    if bytes > 0 && text.len() > 0 && utf8_width(text[0]) <= bytes {
        let rest = text.skip(1);
        lemma_byte_prefix(rest, (bytes - utf8_width(text[0])) as nat);
        if let Some(part) = byte_prefix(rest, (bytes - utf8_width(text[0])) as nat) {
            assert(text.take(part.len() as int + 1) =~= seq![text[0]] + rest.take(part.len() as int));
        }
    }
    assert(text.take(0) =~= Seq::<char>::empty());
}

proof fn lemma_plain_prefix(text: Seq<char>, n: nat)
    requires
        n <= text.len(),
        forall|i: int| 0 <= i < n ==> (#[trigger] text[i] as u32) < 128,
    ensures
        byte_prefix(text, n) == Some(text.take(n as int)),
    decreases n,
{
    if n > 0 {
        let rest = text.skip(1);
        assert((text[0] as u32) < 128);
        assert forall|i: int| 0 <= i < n - 1 implies (#[trigger] rest[i] as u32) < 128 by {
            assert(rest[i] == text[i + 1]);
        }
        lemma_plain_prefix(rest, (n - 1) as nat);
        assert(seq![text[0]] + rest.take(n - 1) =~= text.take(n as int));
    } else {
        assert(text.take(0) =~= Seq::<char>::empty());
    }
}

} // verus!
