//! The provider side of an attempt: what it writes to the runtime state once its outcome is known.

use vstd::prelude::*;
use crate::text::same;
use super::facts::{text_view, AttemptFailure, ProviderClassificationFacts};
use super::materialization::{
    mechanical_failure_write, RuntimeStateAuthoritySignal, TransportAddress, TransportTarget,
};
use super::response::{facts_of_failure, failure_facts, ProductionAttemptState};
use super::state::{
    failure_write, finish_state_write, write_applied, AttemptStatePermits, CasOutcome,
    RuntimeCooldownPolicy, StateAccessError, StateWrite,
};

verus! {

/// What serves the attempts of a gateway: the cooldowns that failures leave.
#[derive(Debug)]
pub struct ProductionProvider {
    pub cooldowns: RuntimeCooldownPolicy,
}

/// How the outcome of an attempt is confirmed.
#[derive(Clone, Copy, Debug, PartialEq, Eq, Structural)]
pub enum Confirmation {
    /// The failure is written, where it touches the state at all.
    WriteFailure(Option<StateWrite>),
    /// The permits are held against the state again, and probes return their targets.
    ConfirmSuccess,
}

impl ProductionProvider {
    pub fn new() -> (r: Self)
        ensures
            r.cooldowns.credential_quota == 60_000_000_000,
            r.cooldowns.binding == 15_000_000_000,
    {
        ProductionProvider { cooldowns: RuntimeCooldownPolicy::default() }
    }

    /// Confirms an attempt before its response is accepted. A classified failure is written; where
    /// none can be, the request is told that its runtime state failed it.
    pub fn confirm_precommit(
        &self,
        state: &ProductionAttemptState,
        permits: AttemptStatePermits,
        now: u128,
        signal: &mut RuntimeStateAuthoritySignal,
    ) -> (r: Result<Confirmation, String>)
        ensures
            match state.classified_failure {
                None => r == Ok::<Confirmation, String>(Confirmation::ConfirmSuccess)
                    && *final(signal) == *old(signal),
                Some(failure) => match failure_write(permits, failure, self.cooldowns, now) {
                    Ok(write) => r == Ok::<Confirmation, String>(Confirmation::WriteFailure(write))
                        && *final(signal) == *old(signal),
                    Err(_) => r matches Err(error) && error@ == "runtime_state_authority_failed"@
                        && final(signal).failed,
                },
            },
    {
        match &state.classified_failure {
            None => Ok(Confirmation::ConfirmSuccess),
            Some(failure) => match mechanical_failure_write(
                permits,
                failure,
                &self.cooldowns,
                now,
                signal,
            ) {
                Ok(write) => Ok(Confirmation::WriteFailure(write)),
                Err(error) => Err(error),
            },
        }
    }
}

/// Takes the answer to a write that an attempt made. Where the store failed or the write was not
/// applied, the runtime state has failed the request.
pub fn finish_confirmation(
    write: &StateWrite,
    outcome: Result<CasOutcome, StateAccessError>,
    signal: &mut RuntimeStateAuthoritySignal,
) -> (r: Result<(), String>)
    ensures
        if outcome matches Ok(outcome) && write_applied(write.expected_generation, outcome) {
            r is Ok && *final(signal) == *old(signal)
        } else {
            r matches Err(error) && error@ == "runtime_state_authority_failed"@
                && final(signal).failed
        },
{
    match finish_state_write(write.expected_generation, outcome) {
        Ok(()) => Ok(()),
        Err(_) => Err(signal.fail()),
    }
}

/// The facts of an attempt that failed on its way: those of its classified failure, else what the
/// provider said before. The failure stays with the attempt.
pub fn confirm_attempt_failure(
    state: &mut ProductionAttemptState,
    classified: Option<AttemptFailure>,
    told: Option<ProviderClassificationFacts>,
) -> (r: Option<ProviderClassificationFacts>)
    ensures
        match classified {
            None => r == told && *final(state) == *old(state),
            Some(failure) => r matches Some(facts) && facts@ == facts_of_failure(failure)
                && final(state)@ == (super::response::AttemptView {
                classified_failure: Some(failure),
                ..old(state)@
            }),
        },
{
    match classified {
        None => told,
        Some(failure) => {
            let facts = failure_facts(&failure);
            state.classified_failure = Some(failure);
            Some(facts)
        },
    }
}

/// Whether two targets are the same.
pub open spec fn is_same_target(a: TransportTarget, b: TransportTarget) -> bool {
    a.scheme == b.scheme && a.authority@ == b.authority@ && text_view(a.unresolved_authority)
        == text_view(b.unresolved_authority) && a.addresses@ == b.addresses@ && text_view(a.sni)
        == text_view(b.sni)
}

fn same_option(a: &Option<String>, b: &Option<String>) -> (r: bool)
    ensures
        r == (text_view(*a) == text_view(*b)),
{
    match (a, b) {
        (Some(a), Some(b)) => same(a.as_str(), b.as_str()),
        (None, None) => true,
        _ => false,
    }
}

fn same_addresses(a: &Vec<TransportAddress>, b: &Vec<TransportAddress>) -> (r: bool)
    ensures
        r == (a@ == b@),
{
    if a.len() != b.len() {
        return false;
    }
    let mut i: usize = 0;
    while i < a.len()
        invariant
            i <= a.len(),
            a@.len() == b@.len(),
            forall|j: int| 0 <= j < i ==> #[trigger] a@[j] == b@[j],
        decreases a.len() - i,
    {
        if a[i] != b[i] {
            assert(a@[i as int] != b@[i as int]);
            return false;
        }
        i += 1;
    }
    assert(a@ =~= b@);
    true
}

/// The target of an attempt, where it is another than the plan's.
pub fn resolved_transport_target(resolved: TransportTarget, planned: &TransportTarget) -> (r: Option<
    TransportTarget,
>)
    ensures
        r == (if is_same_target(resolved, *planned) {
            None
        } else {
            Some(resolved)
        }),
{
    if resolved.scheme == planned.scheme && same(
        resolved.authority.as_str(),
        planned.authority.as_str(),
    ) && same_option(&resolved.unresolved_authority, &planned.unresolved_authority)
        && same_addresses(&resolved.addresses, &planned.addresses) && same_option(
        &resolved.sni,
        &planned.sni,
    ) {
        return None;
    }
    Some(resolved)
}

} // verus!
