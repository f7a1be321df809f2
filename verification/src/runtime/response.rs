//! Classification of an upstream response before anything is sent to the client, and the bytes
//! that are sent once a response is accepted.
//!
//! The protocol codecs are outside. An event of the upstream names the codec work to do next, and
//! what the codec answered decides what becomes of the attempt.

use vstd::prelude::*;
use crate::text::{
    before_first, header_text, lowercase, lowered, parse_u64, parsed_u64, same, take_before, trim,
    trimmed, visible_text,
};
use super::body::{
    flat, BodyQueue, DecoderBudgetView, PrecommitDecoderBudget, QueueView, StreamBudget,
};
use super::facts::{
    copied_text, text_view, AttemptFailure, AttemptFailureClass, AttemptTimeoutPhase, FactsView,
    IngressProtocol, ProviderClassificationFacts, RetryabilityFact, UsageDimension,
    UsageFact, unknown_facts,
};
use super::profile::{
    connector_error_profile, sealed_connector_semantics, CandidateProtocolProfile,
    ConnectorErrorProfile,
};
use super::selection::result_view;

verus! {

pub open spec fn is_success(status: u16) -> bool {
    200 <= status < 300
}

pub open spec fn is_informational(status: u16) -> bool {
    100 <= status < 200
}

/// Whether a number is an HTTP status.
pub open spec fn is_status(status: u16) -> bool {
    100 <= status < 1000
}

pub(crate) fn success(status: u16) -> (r: bool)
    ensures
        r == is_success(status),
{
    200 <= status && status < 300
}

/// How a response ended in the terms of its protocol.
#[derive(Clone, Copy, Debug, PartialEq, Eq, Structural)]
pub enum SemanticTerminalOutcome {
    Complete,
    Incomplete,
    Failed,
    Unknown,
}

/// The end that a native projector reports.
#[derive(Clone, Copy, Debug, PartialEq, Eq, Structural)]
pub enum NativeTerminalOutcome {
    Complete,
    Incomplete,
    Failed,
    Unknown,
}

#[derive(Clone, Copy, Debug, PartialEq, Eq, Structural)]
pub enum FinishReason {
    Stop,
    ToolCall,
    Length,
    Refusal,
    Cancelled,
    Other,
}

#[derive(Clone, Copy, Debug, PartialEq, Eq, Structural)]
pub enum ProviderFailureKind {
    Credential,
    Quota,
    BindingOverload,
    PermanentClient,
    Protocol,
    Transient,
}

/// A failure before it is classified.
#[derive(Clone, Copy, Debug, PartialEq, Eq, Structural)]
pub enum RawAttemptFailure {
    Http { status: u16, kind: Option<ProviderFailureKind>, retry_after: Option<u128> },
    Stream { kind: Option<ProviderFailureKind>, retry_after: Option<u128> },
    Protocol,
    Connect,
    Disconnect,
    Timeout { phase: AttemptTimeoutPhase },
}

/// An error that the model reported.
#[derive(Debug)]
pub struct ModelError {
    pub code: Option<String>,
    pub status: Option<u16>,
}

pub struct ModelErrorView {
    pub code: Option<Seq<char>>,
    pub status: Option<u16>,
}

impl View for ModelError {
    type V = ModelErrorView;

    open spec fn view(&self) -> ModelErrorView {
        ModelErrorView { code: text_view(self.code), status: self.status }
    }
}

pub open spec fn error_view(error: Option<ModelError>) -> Option<ModelErrorView> {
    match error {
        Some(error) => Some(error@),
        None => None,
    }
}

impl ModelError {
    pub fn copied(&self) -> (r: Self)
        ensures
            r@ == self@,
    {
        ModelError { code: copied_text(&self.code), status: self.status }
    }
}

/// Tokens that the model reported.
#[derive(Clone, Copy, Debug, PartialEq, Eq, Structural)]
pub struct ModelUsage {
    pub input_tokens: Option<u64>,
    pub output_tokens: Option<u64>,
    pub cache_read_tokens: Option<u64>,
    pub cache_write_tokens: Option<u64>,
    pub reasoning_tokens: Option<u64>,
}

/// One piece of output of a native projector.
#[derive(Debug)]
pub struct NativeUnit {
    pub bytes: Vec<u8>,
    pub semantic: bool,
    pub terminal: Option<NativeTerminalOutcome>,
    pub failure: Option<ModelError>,
}

#[derive(Debug)]
pub enum ModelEvent {
    FinishReason { reason: FinishReason },
    ResponseFailed { error: ModelError },
    ResponseCompleted,
    Other,
}

#[derive(Clone, Copy, Debug, PartialEq, Eq, Structural)]
pub enum RenderError {
    NotRepresentable,
    Serialization,
}

/// One decoded event and what the client renderer made of it, up to its first error.
#[derive(Debug)]
pub struct DecodedEvent {
    pub event: ModelEvent,
    pub semantic: bool,
    pub rendered: Vec<Vec<u8>>,
    pub render_error: Option<RenderError>,
}

#[derive(Clone, Copy, Debug, PartialEq, Eq, Structural)]
pub enum DecodeEnd {
    Complete,
    Malformed,
    DrainFailed,
}

/// What a decoder made of some bytes: its events in order, and how it ended.
#[derive(Debug)]
pub struct DecodeReport {
    pub events: Vec<DecodedEvent>,
    pub end: DecodeEnd,
}

/// A response that was decoded as a whole.
#[derive(Debug)]
pub struct DecodedResponse {
    pub error: Option<ModelError>,
    pub finish_reason: Option<FinishReason>,
    pub has_semantic_output: bool,
    /// The client form: its status and its bytes; `None` where it has none.
    pub rendered: Option<RenderedClientResponse>,
}

#[derive(Debug)]
pub enum RenderedClientResponse {
    Json { status: u16, content_type: String, bytes: Vec<u8> },
    Sse,
}

/// The head of an upstream response.
#[derive(Debug)]
pub struct ResponseHead {
    pub status: u16,
    pub headers: Vec<(String, Vec<u8>)>,
}

/// The state of one attempt until its response is accepted.
#[derive(Debug)]
pub struct ProductionAttemptState {
    pub profile: CandidateProtocolProfile,
    pub response_status: Option<u16>,
    pub classified_failure: Option<AttemptFailure>,
    pub streaming: bool,
    pub native_output: bool,
    pub chat_tool_projection: bool,
    pub decoder: bool,
    pub renderer: bool,
    pub projector: bool,
    pub prefix: Option<BodyQueue>,
    pub prefix_terminal_chunks: Option<usize>,
    pub decoder_budget: Option<PrecommitDecoderBudget>,
    pub semantic_seen: bool,
    pub terminal_seen: bool,
    pub semantic_terminal: Option<SemanticTerminalOutcome>,
    pub retry_after: Option<u128>,
}

pub struct AttemptView {
    pub profile: CandidateProtocolProfile,
    pub response_status: Option<u16>,
    pub classified_failure: Option<AttemptFailure>,
    pub streaming: bool,
    pub native_output: bool,
    pub chat_tool_projection: bool,
    pub decoder: bool,
    pub renderer: bool,
    pub projector: bool,
    pub prefix: Option<QueueView>,
    pub prefix_terminal_chunks: Option<usize>,
    pub decoder_budget: Option<DecoderBudgetView>,
    pub semantic_seen: bool,
    pub terminal_seen: bool,
    pub semantic_terminal: Option<SemanticTerminalOutcome>,
    pub retry_after: Option<u128>,
}

pub open spec fn queue_view(queue: Option<BodyQueue>) -> Option<QueueView> {
    match queue {
        Some(queue) => Some(queue@),
        None => None,
    }
}

pub open spec fn account_view(account: Option<PrecommitDecoderBudget>) -> Option<
    DecoderBudgetView,
> {
    match account {
        Some(account) => Some(account@),
        None => None,
    }
}

impl View for ProductionAttemptState {
    type V = AttemptView;

    open spec fn view(&self) -> AttemptView {
        AttemptView {
            profile: self.profile,
            response_status: self.response_status,
            classified_failure: self.classified_failure,
            streaming: self.streaming,
            native_output: self.native_output,
            chat_tool_projection: self.chat_tool_projection,
            decoder: self.decoder,
            renderer: self.renderer,
            projector: self.projector,
            prefix: queue_view(self.prefix),
            prefix_terminal_chunks: self.prefix_terminal_chunks,
            decoder_budget: account_view(self.decoder_budget),
            semantic_seen: self.semantic_seen,
            terminal_seen: self.terminal_seen,
            semantic_terminal: self.semantic_terminal,
            retry_after: self.retry_after,
        }
    }
}

impl ProductionAttemptState {
    /// The queue and the decoder account are sound and charged to `budget`.
    pub open spec fn wf(self, budget: StreamBudget) -> bool {
        &&& budget.wf()
        &&& self.prefix matches Some(queue) ==> queue.wf() && flat(queue@.chunks).len()
            <= budget.live
        &&& self.decoder_budget matches Some(account) ==> account@.wf()
    }
}

/// A response that is ready to be sent, or a failure that is ready to be reported.
#[derive(Debug)]
pub struct ProductionReadiness {
    pub response_status: u16,
    pub content_type: String,
    pub prefix: BodyQueue,
    pub terminal_body: Option<Vec<u8>>,
    pub decoder: bool,
    pub renderer: bool,
    pub projector: bool,
    pub decoder_budget: Option<PrecommitDecoderBudget>,
    pub streaming: bool,
    pub prefix_eos_pending: bool,
    pub prefix_terminal_chunks: Option<usize>,
    pub semantic_terminal: Option<SemanticTerminalOutcome>,
}

pub struct ReadinessView {
    pub response_status: u16,
    pub content_type: Seq<char>,
    pub prefix: QueueView,
    pub terminal_body: Option<Seq<u8>>,
    pub decoder: bool,
    pub renderer: bool,
    pub projector: bool,
    pub decoder_budget: Option<DecoderBudgetView>,
    pub streaming: bool,
    pub prefix_eos_pending: bool,
    pub prefix_terminal_chunks: Option<usize>,
    pub semantic_terminal: Option<SemanticTerminalOutcome>,
}

pub open spec fn bytes_view(bytes: Option<Vec<u8>>) -> Option<Seq<u8>> {
    match bytes {
        Some(bytes) => Some(bytes@),
        None => None,
    }
}

impl View for ProductionReadiness {
    type V = ReadinessView;

    open spec fn view(&self) -> ReadinessView {
        ReadinessView {
            response_status: self.response_status,
            content_type: self.content_type@,
            prefix: self.prefix@,
            terminal_body: bytes_view(self.terminal_body),
            decoder: self.decoder,
            renderer: self.renderer,
            projector: self.projector,
            decoder_budget: account_view(self.decoder_budget),
            streaming: self.streaming,
            prefix_eos_pending: self.prefix_eos_pending,
            prefix_terminal_chunks: self.prefix_terminal_chunks,
            semantic_terminal: self.semantic_terminal,
        }
    }
}

impl ProductionReadiness {
    pub open spec fn wf(self, budget: StreamBudget) -> bool {
        &&& budget.wf()
        &&& self.prefix.wf()
        &&& flat(self.prefix@.chunks).len() <= budget.live
    }
}

/// A failure for the outcome classifier: what happened, which of the connector's errors are
/// typed, and the status that the client would see.
#[derive(Clone, Copy, Debug, PartialEq, Eq, Structural)]
pub struct FailureToClassify {
    pub raw: RawAttemptFailure,
    pub errors: ConnectorErrorProfile,
    pub local_status: u16,
}

/// What to do next with an attempt.
#[derive(Debug)]
pub enum PrecommitAction {
    Pending,
    OpenCodec { projector: bool },
    Feed { projector: bool, end_stream: bool },
    Classify(FailureToClassify),
    Ready { facts: ProviderClassificationFacts, readiness: ProductionReadiness },
}

pub enum ActionView {
    Pending,
    OpenCodec { projector: bool },
    Feed { projector: bool, end_stream: bool },
    Classify(FailureToClassify),
    Ready { facts: FactsView, readiness: ReadinessView },
}

impl View for PrecommitAction {
    type V = ActionView;

    open spec fn view(&self) -> ActionView {
        match *self {
            PrecommitAction::Pending => ActionView::Pending,
            PrecommitAction::OpenCodec { projector } => ActionView::OpenCodec { projector },
            PrecommitAction::Feed { projector, end_stream } => ActionView::Feed {
                projector,
                end_stream,
            },
            PrecommitAction::Classify(failure) => ActionView::Classify(failure),
            PrecommitAction::Ready { facts, readiness } => ActionView::Ready {
                facts: facts@,
                readiness: readiness@,
            },
        }
    }
}

/// An action, or the text of the error that ends the attempt.
pub type ActionResult = Result<ActionView, Seq<char>>;

pub open spec fn action_view(r: Result<PrecommitAction, String>) -> ActionResult {
    match r {
        Ok(action) => Ok(action@),
        Err(error) => Err(error@),
    }
}

/// What one step leaves: its action, the attempt and the budget.
pub struct Step {
    pub action: ActionResult,
    pub attempt: AttemptView,
    pub budget: StreamBudget,
}

pub open spec fn native_end(outcome: NativeTerminalOutcome) -> SemanticTerminalOutcome {
    match outcome {
        NativeTerminalOutcome::Complete => SemanticTerminalOutcome::Complete,
        NativeTerminalOutcome::Incomplete => SemanticTerminalOutcome::Incomplete,
        NativeTerminalOutcome::Failed => SemanticTerminalOutcome::Failed,
        NativeTerminalOutcome::Unknown => SemanticTerminalOutcome::Unknown,
    }
}

pub fn native_terminal(outcome: NativeTerminalOutcome) -> (r: SemanticTerminalOutcome)
    ensures
        r == native_end(outcome),
{
    match outcome {
        NativeTerminalOutcome::Complete => SemanticTerminalOutcome::Complete,
        NativeTerminalOutcome::Incomplete => SemanticTerminalOutcome::Incomplete,
        NativeTerminalOutcome::Failed => SemanticTerminalOutcome::Failed,
        NativeTerminalOutcome::Unknown => SemanticTerminalOutcome::Unknown,
    }
}

pub open spec fn finish_end(reason: FinishReason) -> SemanticTerminalOutcome {
    if reason is Stop || reason is ToolCall {
        SemanticTerminalOutcome::Complete
    } else {
        SemanticTerminalOutcome::Incomplete
    }
}

pub fn semantic_terminal_for_finish_reason(reason: FinishReason) -> (r: SemanticTerminalOutcome)
    ensures
        r == finish_end(reason),
{
    match reason {
        FinishReason::Stop | FinishReason::ToolCall => SemanticTerminalOutcome::Complete,
        FinishReason::Length
        | FinishReason::Refusal
        | FinishReason::Cancelled
        | FinishReason::Other => SemanticTerminalOutcome::Incomplete,
    }
}

/// The end of a response that was decoded as a whole.
pub open spec fn response_end(response: DecodedResponse) -> Option<SemanticTerminalOutcome> {
    if response.error is Some {
        Some(SemanticTerminalOutcome::Failed)
    } else {
        match response.finish_reason {
            Some(reason) => Some(finish_end(reason)),
            None => None,
        }
    }
}

pub fn semantic_terminal_for_response(response: &DecodedResponse) -> (r: Option<
    SemanticTerminalOutcome,
>)
    ensures
        r == response_end(*response),
{
    if response.error.is_some() {
        Some(SemanticTerminalOutcome::Failed)
    } else {
        match response.finish_reason {
            Some(reason) => Some(semantic_terminal_for_finish_reason(reason)),
            None => None,
        }
    }
}

/// The end that is known after one more event.
pub open spec fn end_after(
    current: Option<SemanticTerminalOutcome>,
    event: ModelEvent,
) -> Option<SemanticTerminalOutcome> {
    match event {
        ModelEvent::FinishReason { reason } => Some(finish_end(reason)),
        ModelEvent::ResponseFailed { .. } => Some(SemanticTerminalOutcome::Failed),
        _ => current,
    }
}

pub fn observe_semantic_terminal(
    current: Option<SemanticTerminalOutcome>,
    event: &ModelEvent,
) -> (r: Option<SemanticTerminalOutcome>)
    ensures
        r == end_after(current, *event),
{
    match event {
        ModelEvent::FinishReason { reason } => Some(semantic_terminal_for_finish_reason(*reason)),
        ModelEvent::ResponseFailed { .. } => Some(SemanticTerminalOutcome::Failed),
        _ => current,
    }
}

/// A dimension of usage: what was reported, or unknown.
pub open spec fn dimension(value: Option<u64>) -> UsageDimension {
    match value {
        Some(tokens) => UsageDimension::Reported(tokens),
        None => UsageDimension::Unknown,
    }
}

fn reported(value: Option<u64>) -> (r: UsageDimension)
    ensures
        r == dimension(value),
{
    match value {
        Some(tokens) => UsageDimension::Reported(tokens),
        None => UsageDimension::Unknown,
    }
}

pub open spec fn usage_fact(usage: ModelUsage) -> UsageFact {
    UsageFact {
        input: dimension(usage.input_tokens),
        output: dimension(usage.output_tokens),
        billable: UsageDimension::Unknown,
        cache_read: dimension(usage.cache_read_tokens),
        cache_write: dimension(usage.cache_write_tokens),
        reasoning: dimension(usage.reasoning_tokens),
    }
}

pub fn model_usage_fact(usage: &ModelUsage) -> (r: UsageFact)
    ensures
        r == usage_fact(*usage),
{
    UsageFact {
        input: reported(usage.input_tokens),
        output: reported(usage.output_tokens),
        billable: UsageDimension::Unknown,
        cache_read: reported(usage.cache_read_tokens),
        cache_write: reported(usage.cache_write_tokens),
        reasoning: reported(usage.reasoning_tokens),
    }
}

/// The first value of a header; names are compared without regard to ASCII case.
pub open spec fn header_value(headers: Seq<(String, Vec<u8>)>, name: Seq<char>) -> Option<Seq<u8>>
    decreases headers.len(),
{
    if headers.len() == 0 {
        None
    } else if lowered(headers[0].0@) == lowered(name) {
        Some(headers[0].1@)
    } else {
        header_value(headers.skip(1), name)
    }
}

fn find_header<'a>(headers: &'a Vec<(String, Vec<u8>)>, name: &str) -> (r: Option<&'a Vec<u8>>)
    ensures
        (match r {
            Some(value) => Some(value@),
            None => None,
        }) == header_value(headers@, name@),
{
    let wanted = lowercase(name);
    let mut i: usize = 0;
    assert(headers@.skip(0) == headers@);
    while i < headers.len()
        invariant
            i <= headers.len(),
            wanted@ == lowered(name@),
            header_value(headers@, name@) == header_value(headers@.skip(i as int), name@),
        decreases headers.len() - i,
    {
        assert(headers@.skip(i as int).skip(1) == headers@.skip(i + 1));
        let (key, value) = &headers[i];
        if same(lowercase(key.as_str()).as_str(), wanted.as_str()) {
            return Some(value);
        }
        i += 1;
    }
    None
}

/// The media type of a response: the text before the first semicolon, without white space.
pub open spec fn media_type(headers: Seq<(String, Vec<u8>)>) -> Option<Seq<char>> {
    match header_value(headers, "content-type"@) {
        Some(value) => match visible_text(value) {
            Some(text) => Some(trimmed(before_first(text, ';'))),
            None => None,
        },
        None => None,
    }
}

/// Whether the media type is the one that the profile was frozen for.
pub open spec fn content_type_fits(headers: Seq<(String, Vec<u8>)>, streaming: bool) -> bool {
    media_type(headers) matches Some(value) && lowered(value) == lowered(
        if streaming {
            "text/event-stream"@
        } else {
            "application/json"@
        },
    )
}

pub fn validate_native_content_type(head: &ResponseHead, streaming: bool) -> (r: Result<
    (),
    String,
>)
    ensures
        result_view(r) == (if content_type_fits(head.headers@, streaming) {
            Ok(())
        } else {
            Err("provider response content type is incompatible with frozen profile"@)
        }),
{
    let expected = if streaming {
        "text/event-stream"
    } else {
        "application/json"
    };
    let fits = match find_header(&head.headers, "content-type") {
        Some(value) => match header_text(value.as_slice()) {
            Some(text) => {
                let media = trim(take_before(text.as_str(), ';').as_str());
                same(
                    lowercase(media.as_str()).as_str(),
                    lowercase(expected).as_str(),
                )
            },
            None => false,
        },
        None => false,
    };
    if fits {
        Ok(())
    } else {
        Err("provider response content type is incompatible with frozen profile".to_owned())
    }
}

/// The delay that a trusted header asks for: whole seconds.
pub open spec fn retry_delay(
    profile: CandidateProtocolProfile,
    headers: Seq<(String, Vec<u8>)>,
) -> Option<u128> {
    match profile.connector.errors {
        Some(errors) => match errors.retry_after_header {
            Some(name) => match header_value(headers, name@) {
                Some(value) => match visible_text(value) {
                    Some(text) => match parsed_u64(text) {
                        Some(seconds) => Some((seconds * 1_000_000_000) as u128),
                        None => None,
                    },
                    None => None,
                },
                None => None,
            },
            None => None,
        },
        None => None,
    }
}

pub fn trusted_retry_after(profile: &CandidateProtocolProfile, head: &ResponseHead) -> (r: Option<
    u128,
>)
    ensures
        r == retry_delay(*profile, head.headers@),
{
    let header = match &profile.connector.errors {
        Some(errors) => match &errors.retry_after_header {
            Some(name) => name,
            None => return None,
        },
        None => return None,
    };
    let text = match find_header(&head.headers, header.as_str()) {
        Some(value) => match header_text(value.as_slice()) {
            Some(text) => text,
            None => return None,
        },
        None => return None,
    };
    match parse_u64(text.as_str()) {
        Some(seconds) => Some(seconds as u128 * 1_000_000_000),
        None => None,
    }
}

/// What a provider's error code means, in the code's protocol.
pub open spec fn code_kind(protocol: IngressProtocol, code: Seq<char>) -> Option<
    ProviderFailureKind,
> {
    match protocol {
        IngressProtocol::Responses | IngressProtocol::ChatCompletions => {
            if code == "invalid_api_key"@ || code == "authentication_error"@ || code
                == "unauthorized"@ {
                Some(ProviderFailureKind::Credential)
            } else if code == "insufficient_quota"@ || code == "quota_exceeded"@ {
                Some(ProviderFailureKind::Quota)
            } else if code == "rate_limit_exceeded"@ || code == "server_overloaded"@ {
                Some(ProviderFailureKind::BindingOverload)
            } else if code == "invalid_request_error"@ || code == "invalid_request"@ {
                Some(ProviderFailureKind::PermanentClient)
            } else if code == "protocol_error"@ {
                Some(ProviderFailureKind::Protocol)
            } else if code == "server_error"@ || code == "internal_error"@ {
                Some(ProviderFailureKind::Transient)
            } else {
                None
            }
        },
        IngressProtocol::Messages => {
            if code == "authentication_error"@ || code == "permission_error"@ {
                Some(ProviderFailureKind::Credential)
            } else if code == "rate_limit_error"@ || code == "overloaded_error"@ {
                Some(ProviderFailureKind::BindingOverload)
            } else if code == "invalid_request_error"@ || code == "not_found_error"@ {
                Some(ProviderFailureKind::PermanentClient)
            } else if code == "api_error"@ {
                Some(ProviderFailureKind::Transient)
            } else {
                None
            }
        },
    }
}

/// What an error of a sealed profile means; an unsealed profile's errors mean nothing.
pub open spec fn provider_kind(
    profile: CandidateProtocolProfile,
    error: ModelErrorView,
) -> Option<ProviderFailureKind> {
    match error.code {
        Some(code) => if profile.is_sealed() {
            code_kind(profile.capability.upstream_protocol, lowered(code))
        } else {
            None
        },
        None => None,
    }
}

pub fn sanitized_provider_kind(profile: &CandidateProtocolProfile, error: &ModelError) -> (r:
    Option<ProviderFailureKind>)
    ensures
        r == provider_kind(*profile, error@),
{
    if !sealed_connector_semantics(profile) {
        return None;
    }
    let text = match &error.code {
        Some(code) => lowercase(code.as_str()),
        None => return None,
    };
    let code = text.as_str();
    match profile.capability.upstream_protocol {
        IngressProtocol::Responses | IngressProtocol::ChatCompletions => {
            if same(code, "invalid_api_key") || same(code, "authentication_error") || same(
                code,
                "unauthorized",
            ) {
                Some(ProviderFailureKind::Credential)
            } else if same(code, "insufficient_quota") || same(code, "quota_exceeded") {
                Some(ProviderFailureKind::Quota)
            } else if same(code, "rate_limit_exceeded") || same(code, "server_overloaded") {
                Some(ProviderFailureKind::BindingOverload)
            } else if same(code, "invalid_request_error") || same(code, "invalid_request") {
                Some(ProviderFailureKind::PermanentClient)
            } else if same(code, "protocol_error") {
                Some(ProviderFailureKind::Protocol)
            } else if same(code, "server_error") || same(code, "internal_error") {
                Some(ProviderFailureKind::Transient)
            } else {
                None
            }
        },
        IngressProtocol::Messages => {
            if same(code, "authentication_error") || same(code, "permission_error") {
                Some(ProviderFailureKind::Credential)
            } else if same(code, "rate_limit_error") || same(code, "overloaded_error") {
                Some(ProviderFailureKind::BindingOverload)
            } else if same(code, "invalid_request_error") || same(code, "not_found_error") {
                Some(ProviderFailureKind::PermanentClient)
            } else if same(code, "api_error") {
                Some(ProviderFailureKind::Transient)
            } else {
                None
            }
        },
    }
}

/// The failure of a response that could not be decoded: a protocol failure where the status
/// claimed success, else what the status says.
pub open spec fn decode_failure(status: u16, retry_after: Option<u128>) -> RawAttemptFailure {
    if is_success(status) {
        RawAttemptFailure::Protocol
    } else {
        RawAttemptFailure::Http { status, kind: None, retry_after }
    }
}

pub fn response_decode_failure(status: u16, retry_after: Option<u128>) -> (r: RawAttemptFailure)
    ensures
        r == decode_failure(status, retry_after),
{
    if success(status) {
        RawAttemptFailure::Protocol
    } else {
        RawAttemptFailure::Http { status, kind: None, retry_after }
    }
}

/// The status that a client sees of a response that could not be decoded.
pub open spec fn decode_status(status: u16) -> u16 {
    if is_success(status) {
        502
    } else {
        status
    }
}

pub fn response_decode_local_status(status: u16) -> (r: u16)
    ensures
        r == decode_status(status),
{
    if success(status) {
        502
    } else {
        status
    }
}

/// The label of a failure class.
pub open spec fn class_label(class: AttemptFailureClass) -> Seq<char> {
    match class {
        AttemptFailureClass::Credential => "credential"@,
        AttemptFailureClass::Quota => "quota"@,
        AttemptFailureClass::BindingOverload => "binding_overload"@,
        AttemptFailureClass::Protocol => "protocol"@,
        AttemptFailureClass::PermanentClient => "permanent_client"@,
        AttemptFailureClass::Transient => "transient"@,
        AttemptFailureClass::Timeout(_) => "timeout"@,
        AttemptFailureClass::Disconnect => "disconnect"@,
        AttemptFailureClass::PreOutputStream(_) => "preoutput_stream"@,
        AttemptFailureClass::PostCommit => "postcommit"@,
        AttemptFailureClass::Unclassified => "unclassified"@,
    }
}

fn class_text(class: AttemptFailureClass) -> (r: String)
    ensures
        r@ == class_label(class),
{
    match class {
        AttemptFailureClass::Credential => "credential".to_owned(),
        AttemptFailureClass::Quota => "quota".to_owned(),
        AttemptFailureClass::BindingOverload => "binding_overload".to_owned(),
        AttemptFailureClass::Protocol => "protocol".to_owned(),
        AttemptFailureClass::PermanentClient => "permanent_client".to_owned(),
        AttemptFailureClass::Transient => "transient".to_owned(),
        AttemptFailureClass::Timeout(_) => "timeout".to_owned(),
        AttemptFailureClass::Disconnect => "disconnect".to_owned(),
        AttemptFailureClass::PreOutputStream(_) => "preoutput_stream".to_owned(),
        AttemptFailureClass::PostCommit => "postcommit".to_owned(),
        AttemptFailureClass::Unclassified => "unclassified".to_owned(),
    }
}

/// The facts of a classified failure.
pub open spec fn facts_of_failure(failure: AttemptFailure) -> FactsView {
    FactsView {
        error_class: Some(class_label(failure.class)),
        retryability: if failure.precommit_relayable {
            RetryabilityFact::Retryable
        } else {
            RetryabilityFact::NonRetryable
        },
        http_status: match failure.status {
            Some(status) => if is_status(status) {
                Some(status)
            } else {
                None
            },
            None => None,
        },
        retry_after: failure.retry_after,
        readiness: "classified_response"@,
        ..unknown_facts()
    }
}

pub fn failure_facts(failure: &AttemptFailure) -> (r: ProviderClassificationFacts)
    ensures
        r@ == facts_of_failure(*failure),
{
    ProviderClassificationFacts {
        error_class: Some(class_text(failure.class)),
        retryability: if failure.precommit_relayable {
            RetryabilityFact::Retryable
        } else {
            RetryabilityFact::NonRetryable
        },
        http_status: match failure.status {
            Some(status) => if 100 <= status && status < 1000 {
                Some(status)
            } else {
                None
            },
            None => None,
        },
        retry_after: failure.retry_after,
        readiness: "classified_response".to_owned(),
        model_event: None,
        usage: None,
        ended_at: None,
    }
}

/// The facts of a response with semantic output.
pub open spec fn semantic_facts(status: u16) -> FactsView {
    FactsView {
        retryability: RetryabilityFact::NonRetryable,
        http_status: Some(status),
        readiness: "semantic_response"@,
        model_event: Some("semantic_response"@),
        ..unknown_facts()
    }
}

pub fn semantic_response_facts(status: u16) -> (r: ProviderClassificationFacts)
    ensures
        r@ == semantic_facts(status),
{
    ProviderClassificationFacts {
        error_class: None,
        retryability: RetryabilityFact::NonRetryable,
        http_status: Some(status),
        retry_after: None,
        readiness: "semantic_response".to_owned(),
        model_event: Some("semantic_response".to_owned()),
        usage: None,
        ended_at: None,
    }
}

impl AttemptView {
    /// Hands a failure to the classifier. An attempt whose profile is not sealed fails outright.
    pub open spec fn failing(self, raw: RawAttemptFailure, local_status: u16) -> ActionResult {
        match self.profile.error_profile() {
            Some(errors) => Ok(
                ActionView::Classify(FailureToClassify { raw, errors, local_status }),
            ),
            None => Err("protocol_failed"@),
        }
    }

    pub open spec fn protocol_failing(self) -> ActionResult {
        self.failing(RawAttemptFailure::Protocol, 502)
    }

    /// Hands an error that the model reported to the classifier.
    pub open spec fn model_failing(
        self,
        error: ModelErrorView,
        response_status: u16,
        stream: bool,
    ) -> ActionResult {
        let kind = provider_kind(self.profile, error);
        let status = match error.status {
            Some(status) => status,
            None => response_status,
        };
        self.failing(
            if stream && is_success(response_status) {
                RawAttemptFailure::Stream { kind, retry_after: self.retry_after }
            } else {
                RawAttemptFailure::Http { status, kind, retry_after: self.retry_after }
            },
            if is_status(status) && !is_success(status) {
                status
            } else {
                502
            },
        )
    }

    /// What moves into the readiness of an attempt.
    pub open spec fn readiness(
        self,
        queue: QueueView,
        response_status: u16,
        content_type: Seq<char>,
        prefix_eos_pending: bool,
    ) -> ReadinessView {
        ReadinessView {
            response_status,
            content_type,
            prefix: queue,
            terminal_body: None,
            decoder: self.decoder,
            renderer: self.renderer,
            projector: self.projector,
            decoder_budget: self.decoder_budget,
            streaming: self.streaming,
            prefix_eos_pending,
            prefix_terminal_chunks: self.prefix_terminal_chunks,
            semantic_terminal: self.semantic_terminal,
        }
    }

    /// What is left of an attempt once its readiness was taken.
    pub open spec fn emptied(self) -> AttemptView {
        AttemptView {
            decoder: false,
            renderer: false,
            projector: false,
            prefix: None,
            prefix_terminal_chunks: None,
            decoder_budget: None,
            ..self
        }
    }

    /// Takes the readiness with the given facts.
    pub open spec fn ready(
        self,
        facts: FactsView,
        response_status: u16,
        content_type: Seq<char>,
        prefix_eos_pending: bool,
    ) -> (ActionResult, AttemptView) {
        match self.prefix {
            Some(queue) => (
                Ok(
                    ActionView::Ready {
                        facts,
                        readiness: self.readiness(
                            queue,
                            response_status,
                            content_type,
                            prefix_eos_pending,
                        ),
                    },
                ),
                self.emptied(),
            ),
            None => (Err("response prefix owner was already transferred"@), self),
        }
    }
}

pub(crate) fn state_failure(state: &ProductionAttemptState, raw: RawAttemptFailure, local_status: u16) -> (r:
    Result<PrecommitAction, String>)
    ensures
        action_view(r) == state@.failing(raw, local_status),
{
    match connector_error_profile(&state.profile) {
        Ok(errors) => Ok(
            PrecommitAction::Classify(FailureToClassify { raw, errors, local_status }),
        ),
        Err(error) => Err(error),
    }
}

pub fn classify_model_error(
    state: &ProductionAttemptState,
    error: &ModelError,
    response_status: u16,
    stream: bool,
) -> (r: Result<PrecommitAction, String>)
    ensures
        action_view(r) == state@.model_failing(error@, response_status, stream),
{
    let kind = sanitized_provider_kind(&state.profile, error);
    let status: u16 = match error.status {
        Some(status) => status,
        None => response_status,
    };
    let raw = if stream && success(response_status) {
        RawAttemptFailure::Stream { kind, retry_after: state.retry_after }
    } else {
        RawAttemptFailure::Http { status, kind, retry_after: state.retry_after }
    };
    let local_status: u16 = if 100 <= status && status < 1000 && !success(status) {
        status
    } else {
        502
    };
    state_failure(state, raw, local_status)
}

/// Moves what a response needs out of the attempt.
pub fn take_readiness(
    state: &mut ProductionAttemptState,
    response_status: u16,
    content_type: &str,
    prefix_eos_pending: bool,
) -> (r: Result<ProductionReadiness, String>)
    ensures
        match old(state)@.prefix {
            Some(queue) => {
                &&& r matches Ok(readiness)
                &&& readiness@ == old(state)@.readiness(
                    queue,
                    response_status,
                    content_type@,
                    prefix_eos_pending,
                )
                &&& Some(readiness.prefix) == old(state).prefix
                &&& final(state)@ == old(state)@.emptied()
            },
            None => {
                &&& r matches Err(error) && error@
                    == "response prefix owner was already transferred"@
                &&& final(state)@ == old(state)@
            },
        },
        final(state).prefix is None,
        final(state).decoder_budget is None || *final(state) == *old(state),
{
    let prefix = match state.prefix.take() {
        Some(prefix) => prefix,
        None => return Err("response prefix owner was already transferred".to_owned()),
    };
    let readiness = ProductionReadiness {
        response_status,
        content_type: content_type.to_owned(),
        prefix,
        terminal_body: None,
        decoder: state.decoder,
        renderer: state.renderer,
        projector: state.projector,
        decoder_budget: state.decoder_budget.take(),
        streaming: state.streaming,
        prefix_eos_pending,
        prefix_terminal_chunks: state.prefix_terminal_chunks,
        semantic_terminal: state.semantic_terminal,
    };
    state.decoder = false;
    state.renderer = false;
    state.projector = false;
    state.prefix_terminal_chunks = None;
    Ok(readiness)
}

pub(crate) fn take_semantic(
    state: &mut ProductionAttemptState,
    status: u16,
    response_status: u16,
    content_type: &str,
    prefix_eos_pending: bool,
) -> (r: Result<PrecommitAction, String>)
    ensures
        (action_view(r), final(state)@) == old(state)@.ready(
            semantic_facts(status),
            response_status,
            content_type@,
            prefix_eos_pending,
        ),
        final(state).prefix is None,
        final(state).decoder_budget is None || *final(state) == *old(state),
{
    match take_readiness(state, response_status, content_type, prefix_eos_pending) {
        Ok(readiness) => Ok(
            PrecommitAction::Ready { facts: semantic_response_facts(status), readiness },
        ),
        Err(error) => Err(error),
    }
}

} // verus!
