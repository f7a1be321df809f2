//! Facts about attempts that the runtime exchanges with the request lifecycle.
//!
//! Instants are nanoseconds on the monotonic clock and durations are nanoseconds.

use vstd::prelude::*;

verus! {

/// The last instant that the monotonic clock can represent.
pub const CLOCK_LIMIT_NANOS: u128 = 9_223_372_036_854_775_807_999_999_999;

pub const NANOS_PER_SECOND: u128 = 1_000_000_000;

pub const NANOS_PER_MILLI: u128 = 1_000_000;

/// The instant `duration` after `now`, where the clock can represent it.
pub open spec fn instant_after(now: u128, duration: u128) -> Option<u128> {
    if now + duration <= CLOCK_LIMIT_NANOS {
        Some((now + duration) as u128)
    } else {
        None
    }
}

pub fn checked_instant_after(now: u128, duration: u128) -> (r: Option<u128>)
    ensures
        r == instant_after(now, duration),
{
    match now.checked_add(duration) {
        Some(sum) => if sum <= CLOCK_LIMIT_NANOS {
            Some(sum)
        } else {
            None
        },
        None => None,
    }
}

#[derive(Clone, Copy, Debug, PartialEq, Eq, Structural)]
pub enum IngressProtocol {
    Responses,
    ChatCompletions,
    Messages,
}

#[derive(Clone, Copy, Debug, PartialEq, Eq, Structural)]
pub enum RetryabilityFact {
    Unknown,
    Retryable,
    NonRetryable,
}

#[derive(Clone, Copy, Debug, PartialEq, Eq, Structural)]
pub enum Disposition {
    Accept,
    Continue,
    Terminate,
}

#[derive(Clone, Copy, Debug, PartialEq, Eq, Structural)]
pub enum UsageDimension {
    Unknown,
    Reported(u64),
}

#[derive(Clone, Copy, Debug, PartialEq, Eq, Structural)]
pub struct UsageFact {
    pub input: UsageDimension,
    pub output: UsageDimension,
    pub billable: UsageDimension,
    pub cache_read: UsageDimension,
    pub cache_write: UsageDimension,
    pub reasoning: UsageDimension,
}

#[derive(Clone, Copy, Debug, PartialEq, Eq, Structural)]
pub enum AttemptTimeoutPhase {
    Connect,
    RequestWrite,
    FirstByte,
    StreamIdle,
    Overall,
}

#[derive(Clone, Copy, Debug, PartialEq, Eq, Structural)]
pub enum PreOutputStreamClass {
    Transient,
    Other,
}

#[derive(Clone, Copy, Debug, PartialEq, Eq, Structural)]
pub enum AttemptFailureClass {
    Credential,
    Quota,
    BindingOverload,
    Protocol,
    PermanentClient,
    Transient,
    Timeout(AttemptTimeoutPhase),
    Disconnect,
    PreOutputStream(PreOutputStreamClass),
    PostCommit,
    Unclassified,
}

/// The part of the runtime state that a failure concerns.
#[derive(Clone, Copy, Debug, PartialEq, Eq, Structural)]
pub enum FailureStateScope {
    Credential,
    Binding,
}

/// A classified failure of one attempt.
#[derive(Clone, Copy, Debug, PartialEq, Eq, Structural)]
pub struct AttemptFailure {
    pub class: AttemptFailureClass,
    pub status: Option<u16>,
    pub retry_after: Option<u128>,
    /// The state that the failure touches; `None` where it touches none.
    pub state_scope: Option<FailureStateScope>,
    pub disables_credential: bool,
    pub precommit_relayable: bool,
}

/// What a provider reported of one attempt.
#[derive(Debug)]
pub struct ProviderClassificationFacts {
    pub error_class: Option<String>,
    pub retryability: RetryabilityFact,
    pub http_status: Option<u16>,
    pub retry_after: Option<u128>,
    pub readiness: String,
    pub model_event: Option<String>,
    pub usage: Option<UsageFact>,
    pub ended_at: Option<u128>,
}

pub struct FactsView {
    pub error_class: Option<Seq<char>>,
    pub retryability: RetryabilityFact,
    pub http_status: Option<u16>,
    pub retry_after: Option<u128>,
    pub readiness: Seq<char>,
    pub model_event: Option<Seq<char>>,
    pub usage: Option<UsageFact>,
    pub ended_at: Option<u128>,
}

/// The characters of an optional text.
pub open spec fn text_view(text: Option<String>) -> Option<Seq<char>> {
    match text {
        Some(value) => Some(value@),
        None => None,
    }
}

impl View for ProviderClassificationFacts {
    type V = FactsView;

    open spec fn view(&self) -> FactsView {
        FactsView {
            error_class: text_view(self.error_class),
            retryability: self.retryability,
            http_status: self.http_status,
            retry_after: self.retry_after,
            readiness: self.readiness@,
            model_event: text_view(self.model_event),
            usage: self.usage,
            ended_at: self.ended_at,
        }
    }
}

/// Facts with nothing reported.
pub open spec fn unknown_facts() -> FactsView {
    FactsView {
        error_class: None,
        retryability: RetryabilityFact::Unknown,
        http_status: None,
        retry_after: None,
        readiness: "unknown"@,
        model_event: None,
        usage: None,
        ended_at: None,
    }
}

impl Default for ProviderClassificationFacts {
    fn default() -> (r: Self)
        ensures
            r@ == unknown_facts(),
    {
        ProviderClassificationFacts {
            error_class: None,
            retryability: RetryabilityFact::Unknown,
            http_status: None,
            retry_after: None,
            readiness: "unknown".to_owned(),
            model_event: None,
            usage: None,
            ended_at: None,
        }
    }
}

impl ProviderClassificationFacts {
    /// A copy with the same facts.
    pub fn copied(&self) -> (r: Self)
        ensures
            r@ == self@,
    {
        ProviderClassificationFacts {
            error_class: copied_text(&self.error_class),
            retryability: self.retryability,
            http_status: self.http_status,
            retry_after: self.retry_after,
            readiness: self.readiness.clone(),
            model_event: copied_text(&self.model_event),
            usage: self.usage,
            ended_at: self.ended_at,
        }
    }
}

pub fn copied_text(text: &Option<String>) -> (r: Option<String>)
    ensures
        text_view(r) == text_view(*text),
{
    match text {
        Some(value) => Some(value.clone()),
        None => None,
    }
}

/// Whether an optional text is present and reads `expected`.
pub open spec fn reads(text: Option<Seq<char>>, expected: &str) -> bool {
    text == Some(expected@)
}

pub fn text_reads(text: &Option<String>, expected: &str) -> (r: bool)
    ensures
        r == reads(text_view(*text), expected),
{
    match text {
        Some(value) => crate::text::same(value.as_str(), expected),
        None => false,
    }
}

} // verus!
