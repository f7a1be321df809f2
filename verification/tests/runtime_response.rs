use hiroute::runtime::accepted::{accepted_response_head, finalize_attempt_facts};
use hiroute::runtime::body::{BodyQueue, PrecommitDecoderBudget, StreamBudget};
use hiroute::runtime::facts::{
    AttemptFailure, AttemptFailureClass, Disposition, FailureStateScope, IngressProtocol, RetryabilityFact,
    UsageDimension,
};
use hiroute::runtime::precommit::{
    normalize_attempt_local_reply, on_body, on_codec_opened, on_end_stream, on_failure_classified,
    on_plain_body_fed, on_plain_decoded, on_plain_units, on_response_head, on_sse_event,
    on_stream_events, on_stream_units, rendered_response_parts,
};
use hiroute::runtime::profile::{
    AuthenticationSemantics, CandidateCapability, CandidateProtocolProfile, ConnectorErrors,
    ConnectorHeaders, ConnectorProfile,
};
use hiroute::runtime::response::{
    failure_facts, model_usage_fact, native_terminal, response_decode_failure,
    response_decode_local_status, sanitized_provider_kind, semantic_response_facts,
    semantic_terminal_for_finish_reason, take_readiness, trusted_retry_after,
    validate_native_content_type, DecodeEnd, DecodeReport, DecodedEvent, DecodedResponse,
    FinishReason, ModelError, ModelEvent, ModelUsage, NativeTerminalOutcome, NativeUnit,
    PrecommitAction, ProductionAttemptState, ProductionReadiness, ProviderFailureKind,
    RawAttemptFailure, RenderError, RenderedClientResponse, ResponseHead, SemanticTerminalOutcome,
};

const SECOND: u128 = 1_000_000_000;
const MIB: usize = 1024 * 1024;

fn profile(protocol: IngressProtocol) -> CandidateProtocolProfile {
    CandidateProtocolProfile {
        schema_version: "hiroute.candidate-protocol-profile/v1".to_owned(),
        adapter_revision: "adapter".to_owned(),
        serializer_revision: "serializer".to_owned(),
        decoder_revision: "decoder".to_owned(),
        ingress_protocol: IngressProtocol::Responses,
        capability: CandidateCapability {
            schema_version: "hiroute.candidate-capability/v1".to_owned(),
            upstream_protocol: protocol,
            native_model: "model".to_owned(),
        },
        connector: ConnectorProfile {
            schema_version: "hiroute.connector-profile/v1".to_owned(),
            connector_id: "connector".to_owned(),
            request_path: "/v1/responses".to_owned(),
            upstream_protocol: protocol,
            critical_facts_exact: true,
            authentication: Some(AuthenticationSemantics::Required),
            headers: Some(ConnectorHeaders {
                content_type: "application/json".to_owned(),
                required_headers: vec![],
            }),
            errors: Some(ConnectorErrors {
                http_status_typed: true,
                sse_error_typed: true,
                retry_after_header: Some("Retry-After".to_owned()),
            }),
        },
        provider_path_exact: true,
        reasoning_valid: true,
    }
}

fn attempt(budget: &mut StreamBudget, streaming: bool, native: bool) -> ProductionAttemptState {
    ProductionAttemptState {
        profile: profile(IngressProtocol::Responses),
        response_status: None,
        classified_failure: None,
        streaming,
        native_output: native,
        chat_tool_projection: true,
        decoder: false,
        renderer: !native,
        projector: false,
        prefix: Some(BodyQueue::new(8, MIB)),
        prefix_terminal_chunks: None,
        decoder_budget: Some(PrecommitDecoderBudget::new(budget, MIB, 64).unwrap()),
        semantic_seen: false,
        terminal_seen: false,
        semantic_terminal: None,
        retry_after: None,
    }
}

fn head(status: u16, content_type: &str, more: &[(&str, &str)]) -> ResponseHead {
    let mut headers = vec![("Content-Type".to_owned(), content_type.as_bytes().to_vec())];
    for (name, value) in more {
        headers.push((name.to_string(), value.as_bytes().to_vec()));
    }
    ResponseHead { status, headers }
}

fn opened(streaming: bool, native: bool) -> (ProductionAttemptState, StreamBudget) {
    let mut budget = StreamBudget::new(16 * MIB);
    let mut state = attempt(&mut budget, streaming, native);
    let kind = if streaming { "text/event-stream" } else { "application/json" };
    match on_response_head(&mut state, &head(200, kind, &[])) {
        Ok(PrecommitAction::OpenCodec { projector }) => {
            assert_eq!(projector, native);
            assert!(matches!(
                on_codec_opened(&mut state, projector, true),
                Ok(PrecommitAction::Pending)
            ));
        }
        other => panic!("{other:?}"),
    }
    assert!(!state.chat_tool_projection);
    (state, budget)
}

fn raw(result: Result<PrecommitAction, String>) -> (RawAttemptFailure, u16) {
    match result {
        Ok(PrecommitAction::Classify(failure)) => (failure.raw, failure.local_status),
        other => panic!("{other:?}"),
    }
}

fn ready(result: Result<PrecommitAction, String>) -> ProductionReadiness {
    match result {
        Ok(PrecommitAction::Ready { facts, readiness }) => {
            assert_eq!(facts.readiness, "semantic_response");
            assert_eq!(facts.http_status, Some(200));
            readiness
        }
        other => panic!("{other:?}"),
    }
}

fn prefix(mut readiness: ProductionReadiness) -> Vec<u8> {
    let mut bytes = vec![];
    while let Some(mut chunk) = readiness.prefix.pop_front() {
        bytes.append(&mut chunk);
    }
    bytes
}

fn unit(bytes: &[u8], semantic: bool, terminal: Option<NativeTerminalOutcome>) -> NativeUnit {
    NativeUnit { bytes: bytes.to_vec(), semantic, terminal, failure: None }
}

fn error(code: &str, status: Option<u16>) -> ModelError {
    ModelError { code: Some(code.to_owned()), status }
}

#[test]
fn heads_decide_what_is_read() {
    let mut budget = StreamBudget::new(16 * MIB);
    let mut state = attempt(&mut budget, true, false);
    assert!(matches!(
        on_response_head(&mut state, &head(103, "text/plain", &[])),
        Ok(PrecommitAction::Pending)
    ));
    assert!(state.response_status.is_none());
    assert!(matches!(
        on_response_head(&mut state, &head(429, "application/json", &[("retry-after", "7")])),
        Ok(PrecommitAction::OpenCodec { projector: false })
    ));
    assert_eq!(state.retry_after, Some(7 * SECOND));
    assert_eq!(
        on_response_head(&mut state, &head(200, "application/json", &[])).unwrap_err(),
        "provider emitted more than one final response head"
    );
    for status in [401, 403, 500, 599] {
        let mut state = attempt(&mut budget, true, false);
        assert_eq!(
            raw(on_response_head(&mut state, &head(status, "application/json", &[]))),
            (RawAttemptFailure::Http { status, kind: None, retry_after: None }, status)
        );
    }
    let mut state = attempt(&mut budget, true, false);
    assert_eq!(
        raw(on_response_head(&mut state, &head(200, "application/json", &[]))),
        (RawAttemptFailure::Protocol, 502)
    );
    let mut state = attempt(&mut budget, true, false);
    assert_eq!(
        raw(on_response_head(&mut state, &head(404, "text/html", &[]))),
        (RawAttemptFailure::Http { status: 404, kind: None, retry_after: None }, 404)
    );
    let mut unsealed = attempt(&mut budget, true, false);
    unsealed.profile.reasoning_valid = false;
    assert_eq!(
        on_response_head(&mut unsealed, &head(500, "application/json", &[])).unwrap_err(),
        "protocol_failed"
    );
    let mut state = attempt(&mut budget, true, true);
    assert_eq!(on_codec_opened(&mut state, true, false).unwrap_err(), "protocol_failed");
    assert!(!state.projector);
}

#[test]
fn media_types_are_compared_without_parameters() {
    let fits = |kind: &str, streaming| {
        validate_native_content_type(&head(200, kind, &[]), streaming).is_ok()
    };
    assert!(fits("Application/JSON ; charset=utf-8", false));
    assert!(fits("text/event-stream", true));
    assert!(!fits("text/event-stream", false));
    assert!(!fits("application/jsonp", false));
    let none = ResponseHead { status: 200, headers: vec![] };
    assert_eq!(
        validate_native_content_type(&none, false).unwrap_err(),
        "provider response content type is incompatible with frozen profile"
    );
    let mut unreadable = head(200, "application/json", &[]);
    unreadable.headers[0].1.push(7);
    assert!(validate_native_content_type(&unreadable, false).is_err());
}

#[test]
fn only_trusted_headers_delay_a_retry() {
    let profile = profile(IngressProtocol::Responses);
    let delay = |value: &str| {
        trusted_retry_after(&profile, &head(429, "application/json", &[("RETRY-AFTER", value)]))
    };
    assert_eq!(delay("0"), Some(0));
    assert_eq!(delay("18446744073709551615"), Some(18446744073709551615 * SECOND));
    for value in ["", "-1", "1.5", "18446744073709551616", "Wed, 21 Oct 2026 07:28:00 GMT"] {
        assert_eq!(delay(value), None, "{value}");
    }
    let mut untrusted = self::profile(IngressProtocol::Responses);
    untrusted.connector.errors.as_mut().unwrap().retry_after_header = None;
    assert_eq!(
        trusted_retry_after(&untrusted, &head(429, "application/json", &[("retry-after", "1")])),
        None
    );
}

#[test]
fn error_codes_mean_what_their_protocol_says() {
    let responses = profile(IngressProtocol::Responses);
    for (code, kind) in [
        ("INVALID_API_KEY", Some(ProviderFailureKind::Credential)),
        ("insufficient_quota", Some(ProviderFailureKind::Quota)),
        ("rate_limit_exceeded", Some(ProviderFailureKind::BindingOverload)),
        ("invalid_request", Some(ProviderFailureKind::PermanentClient)),
        ("protocol_error", Some(ProviderFailureKind::Protocol)),
        ("internal_error", Some(ProviderFailureKind::Transient)),
        ("overloaded_error", None),
    ] {
        assert_eq!(sanitized_provider_kind(&responses, &error(code, None)), kind, "{code}");
    }
    let messages = profile(IngressProtocol::Messages);
    for (code, kind) in [
        ("permission_error", Some(ProviderFailureKind::Credential)),
        ("overloaded_error", Some(ProviderFailureKind::BindingOverload)),
        ("not_found_error", Some(ProviderFailureKind::PermanentClient)),
        ("api_error", Some(ProviderFailureKind::Transient)),
        ("insufficient_quota", None),
    ] {
        assert_eq!(sanitized_provider_kind(&messages, &error(code, None)), kind, "{code}");
    }
    let nameless = ModelError { code: None, status: Some(429) };
    assert_eq!(sanitized_provider_kind(&messages, &nameless), None);
    let mut unsealed = profile(IngressProtocol::Responses);
    unsealed.decoder_revision = " ".to_owned();
    assert_eq!(sanitized_provider_kind(&unsealed, &error("quota_exceeded", None)), None);
}

#[test]
fn bodies_are_charged_before_they_are_read() {
    let (mut state, mut budget) = opened(true, true);
    let before = budget.live;
    assert!(matches!(
        on_body(&mut state, &mut budget, 100),
        Ok(PrecommitAction::Feed { projector: true, end_stream: false })
    ));
    assert!(budget.live > before);
    assert!(matches!(
        on_end_stream(&state),
        Ok(PrecommitAction::Feed { projector: true, end_stream: true })
    ));
    let mut early = attempt(&mut budget, true, true);
    assert_eq!(
        on_body(&mut early, &mut budget, 1).unwrap_err(),
        "provider body arrived before final response head"
    );
    assert_eq!(
        on_end_stream(&early).unwrap_err(),
        "provider ended before final response head"
    );
    early.decoder_budget = None;
    assert_eq!(
        on_body(&mut early, &mut budget, 1).unwrap_err(),
        "native decoder budget owner is unavailable"
    );
    assert_eq!(
        on_sse_event().unwrap_err(),
        "native SSE must enter through the profile decoder"
    );
    let (mut plain, mut budget) = opened(false, false);
    plain.decoder = false;
    assert_eq!(
        on_body(&mut plain, &mut budget, 1).unwrap_err(),
        "native response decoder is unavailable"
    );
    let (mut plain, _) = opened(false, true);
    plain.projector = false;
    assert_eq!(on_end_stream(&plain).unwrap_err(), "native response projector is unavailable");
}

#[test]
fn native_streams_are_held_until_they_say_something() {
    let (mut state, mut budget) = opened(true, true);
    let opening = Some(vec![unit(b"event: created\n\n", false, None)]);
    assert!(matches!(
        on_stream_units(&mut state, &mut budget, &opening, false),
        Ok(PrecommitAction::Pending)
    ));
    let saying = Some(vec![unit(b"event: text\n\n", true, None)]);
    let readiness = ready(on_stream_units(&mut state, &mut budget, &saying, false));
    assert_eq!(readiness.content_type, "text/event-stream");
    assert!(readiness.projector && !readiness.prefix_eos_pending);
    assert_eq!(prefix(readiness), b"event: created\n\nevent: text\n\n".to_vec());
    assert!(state.prefix.is_none() && !state.projector);
    let (mut state, mut budget) = opened(true, true);
    assert_eq!(
        raw(on_stream_units(&mut state, &mut budget, &Some(vec![]), true)),
        (RawAttemptFailure::Protocol, 502)
    );
    assert_eq!(
        raw(on_stream_units(&mut state, &mut budget, &None, false)),
        (RawAttemptFailure::Protocol, 502)
    );
}

#[test]
fn failures_in_a_stream_count_before_its_output() {
    let (mut state, mut budget) = opened(true, true);
    let failing = NativeUnit {
        failure: Some(error("server_overloaded", Some(529))),
        ..unit(b"event: error\n\n", false, Some(NativeTerminalOutcome::Failed))
    };
    assert_eq!(
        raw(on_stream_units(&mut state, &mut budget, &Some(vec![failing]), false)),
        (
            RawAttemptFailure::Stream {
                kind: Some(ProviderFailureKind::BindingOverload),
                retry_after: None
            },
            529
        )
    );
    let (mut state, mut budget) = opened(true, true);
    let late = NativeUnit {
        failure: Some(error("server_error", None)),
        ..unit(b"error", false, Some(NativeTerminalOutcome::Failed))
    };
    let units = Some(vec![unit(b"text", true, None), late]);
    let readiness = ready(on_stream_units(&mut state, &mut budget, &units, false));
    assert_eq!(readiness.semantic_terminal, Some(SemanticTerminalOutcome::Failed));
    assert_eq!(readiness.prefix_terminal_chunks, Some(2));
}

fn event(event: ModelEvent, semantic: bool, rendered: &[&[u8]]) -> DecodedEvent {
    DecodedEvent {
        event,
        semantic,
        rendered: rendered.iter().map(|bytes| bytes.to_vec()).collect(),
        render_error: None,
    }
}

fn report(events: Vec<DecodedEvent>) -> DecodeReport {
    DecodeReport { events, end: DecodeEnd::Complete }
}

#[test]
fn decoded_streams_are_held_until_they_say_something() {
    let (mut state, mut budget) = opened(true, false);
    let nothing = report(vec![event(ModelEvent::Other, false, &[b"start "])]);
    assert!(matches!(
        on_stream_events(&mut state, &mut budget, &nothing, None),
        Ok(PrecommitAction::Pending)
    ));
    let text = report(vec![
        event(ModelEvent::Other, true, &[b"text "]),
        event(ModelEvent::FinishReason { reason: FinishReason::Length }, false, &[b"end"]),
    ]);
    let readiness = ready(on_stream_events(&mut state, &mut budget, &text, Some(true)));
    assert_eq!(readiness.semantic_terminal, Some(SemanticTerminalOutcome::Incomplete));
    assert!(readiness.prefix_eos_pending && !readiness.decoder && readiness.renderer);
    assert_eq!(prefix(readiness), b"start text end".to_vec());
    let (mut state, mut budget) = opened(true, false);
    let malformed = DecodeReport { events: vec![], end: DecodeEnd::Malformed };
    assert_eq!(
        raw(on_stream_events(&mut state, &mut budget, &malformed, None)),
        (RawAttemptFailure::Protocol, 502)
    );
    let (mut state, mut budget) = opened(true, false);
    let text = report(vec![event(ModelEvent::Other, true, &[b"text"])]);
    assert_eq!(
        on_stream_events(&mut state, &mut budget, &text, Some(false)).unwrap_err(),
        "native response terminal is malformed"
    );
    let (mut state, mut budget) = opened(true, false);
    let mut unrenderable = event(ModelEvent::Other, true, &[]);
    unrenderable.render_error = Some(RenderError::Serialization);
    assert_eq!(
        raw(on_stream_events(&mut state, &mut budget, &report(vec![unrenderable]), None)),
        (RawAttemptFailure::Protocol, 502)
    );
}

#[test]
fn whole_native_responses_end_and_say_something() {
    let (mut state, mut budget) = opened(false, true);
    let units =
        Some(vec![unit(b"{\"output\":[]}", true, Some(NativeTerminalOutcome::Complete))]);
    let readiness = ready(on_plain_units(&mut state, &mut budget, &units));
    assert_eq!(readiness.content_type, "application/json");
    assert_eq!(readiness.semantic_terminal, Some(SemanticTerminalOutcome::Complete));
    assert_eq!(prefix(readiness), b"{\"output\":[]}".to_vec());
    for units in [
        None,
        Some(vec![unit(b"{}", false, Some(NativeTerminalOutcome::Complete))]),
        Some(vec![unit(b"{}", true, None)]),
    ] {
        let (mut state, mut budget) = opened(false, true);
        assert_eq!(
            raw(on_plain_units(&mut state, &mut budget, &units)),
            (RawAttemptFailure::Protocol, 502)
        );
    }
    let (mut state, mut budget) = opened(false, true);
    let twice = Some(vec![
        unit(b"a", true, Some(NativeTerminalOutcome::Complete)),
        unit(b"b", true, None),
    ]);
    assert_eq!(
        on_plain_units(&mut state, &mut budget, &twice).unwrap_err(),
        "native response emitted output after terminal"
    );
    let (mut state, mut budget) = opened(false, true);
    let empty = Some(vec![unit(b"", true, Some(NativeTerminalOutcome::Complete))]);
    assert_eq!(
        on_plain_units(&mut state, &mut budget, &empty).unwrap_err(),
        "native terminal produced no wire bytes"
    );
}

fn decoded(rendered: Option<RenderedClientResponse>) -> DecodedResponse {
    DecodedResponse {
        error: None,
        finish_reason: Some(FinishReason::Stop),
        has_semantic_output: true,
        rendered,
    }
}

fn json(status: u16) -> Option<RenderedClientResponse> {
    Some(RenderedClientResponse::Json {
        status,
        content_type: "application/json".to_owned(),
        bytes: b"{\"ok\":1}".to_vec(),
    })
}

#[test]
fn whole_decoded_responses_are_rendered_for_the_client() {
    let (mut state, mut budget) = opened(false, false);
    assert!(matches!(on_plain_body_fed(&state, true), Ok(PrecommitAction::Pending)));
    let readiness =
        ready(on_plain_decoded(&mut state, &mut budget, true, &Some(decoded(json(200)))));
    assert_eq!(readiness.semantic_terminal, Some(SemanticTerminalOutcome::Complete));
    assert!(readiness.prefix_eos_pending);
    assert_eq!(prefix(readiness), b"{\"ok\":1}".to_vec());
    let (state, _) = opened(false, false);
    assert_eq!(raw(on_plain_body_fed(&state, false)), (RawAttemptFailure::Protocol, 502));
    let mut silent = decoded(json(200));
    silent.has_semantic_output = false;
    for (fed, response) in [
        (false, Some(decoded(json(200)))),
        (true, None),
        (true, Some(silent)),
        (true, Some(decoded(None))),
        (true, Some(decoded(json(99)))),
        (true, Some(decoded(Some(RenderedClientResponse::Sse)))),
    ] {
        let (mut state, mut budget) = opened(false, false);
        assert_eq!(
            raw(on_plain_decoded(&mut state, &mut budget, fed, &response)),
            (RawAttemptFailure::Protocol, 502)
        );
    }
    let (mut state, mut budget) = opened(false, false);
    state.response_status = Some(429);
    let mut failed = decoded(json(200));
    failed.error = Some(error("quota_exceeded", None));
    assert_eq!(
        raw(on_plain_decoded(&mut state, &mut budget, true, &Some(failed))),
        (
            RawAttemptFailure::Http {
                status: 429,
                kind: Some(ProviderFailureKind::Quota),
                retry_after: None
            },
            429
        )
    );
    assert_eq!(state.semantic_terminal, Some(SemanticTerminalOutcome::Failed));
    assert!(rendered_response_parts(&json(1000)).is_none());
    assert!(matches!(rendered_response_parts(&json(999)), Some((999, _, _))));
}

fn failure() -> AttemptFailure {
    AttemptFailure {
        class: AttemptFailureClass::Quota,
        status: Some(429),
        retry_after: Some(SECOND),
        state_scope: Some(FailureStateScope::Credential),
        disables_credential: false,
        precommit_relayable: true,
    }
}

#[test]
fn classified_failures_say_nothing_of_the_upstream() {
    let (mut state, mut budget) = opened(true, true);
    let secret = Some(vec![unit(b"upstream-secret", false, None)]);
    let _ = on_stream_units(&mut state, &mut budget, &secret, false);
    let held = budget.live;
    match on_failure_classified(&mut state, &mut budget, failure(), 429) {
        Ok(PrecommitAction::Ready { facts, readiness }) => {
            let body = readiness.terminal_body.as_ref().unwrap();
            assert_eq!(
                body.as_slice(),
                b"{\"error\":{\"code\":\"UPSTREAM_ATTEMPT_FAILED\",\"type\":\"upstream_error\"}}"
            );
            assert_eq!(budget.live, held + body.len() - b"upstream-secret".len());
            assert_eq!(facts.error_class.as_deref(), Some("quota"));
            assert_eq!(facts.retryability, RetryabilityFact::Retryable);
            assert_eq!(facts.readiness, "classified_response");
            assert_eq!(readiness.response_status, 429);
            assert!(prefix(readiness).is_empty());
        }
        other => panic!("{other:?}"),
    }
    assert_eq!(state.classified_failure, Some(failure()));
    assert_eq!(
        on_failure_classified(&mut state, &mut budget, failure(), 429).unwrap_err(),
        "response prefix owner was already transferred"
    );
    let mut none = StreamBudget::new(0);
    assert_eq!(
        on_failure_classified(&mut state, &mut none, failure(), 429).unwrap_err(),
        "stream memory budget exceeded"
    );
}

#[test]
fn local_replies_are_not_retried() {
    let (mut state, _) = opened(true, true);
    match normalize_attempt_local_reply(&mut state, 413) {
        Ok(PrecommitAction::Ready { facts, readiness }) => {
            assert_eq!(facts.error_class.as_deref(), Some("filter_local_reply"));
            assert_eq!(facts.retryability, RetryabilityFact::NonRetryable);
            assert_eq!(facts.readiness, "local_reply");
            assert_eq!(readiness.response_status, 413);
        }
        other => panic!("{other:?}"),
    }
    assert_eq!(
        take_readiness(&mut state, 200, "application/json", false).unwrap_err(),
        "response prefix owner was already transferred"
    );
}

#[test]
fn facts_tell_what_was_reported() {
    let usage = ModelUsage {
        input_tokens: Some(3),
        output_tokens: None,
        cache_read_tokens: Some(0),
        cache_write_tokens: None,
        reasoning_tokens: Some(9),
    };
    let fact = model_usage_fact(&usage);
    assert_eq!(fact.input, UsageDimension::Reported(3));
    assert_eq!(fact.output, UsageDimension::Unknown);
    assert_eq!(fact.billable, UsageDimension::Unknown);
    assert_eq!(fact.cache_read, UsageDimension::Reported(0));
    assert_eq!(fact.reasoning, UsageDimension::Reported(9));
    let mut odd = failure();
    odd.status = Some(99);
    assert_eq!(failure_facts(&odd).http_status, None);
    assert_eq!(failure_facts(&failure()).http_status, Some(429));
    assert_eq!(failure_facts(&failure()).retry_after, Some(SECOND));
    assert_eq!(
        semantic_response_facts(200).model_event.as_deref(),
        Some("semantic_response")
    );
    assert_eq!(response_decode_failure(204, None), RawAttemptFailure::Protocol);
    assert_eq!(response_decode_local_status(204), 502);
    assert_eq!(response_decode_local_status(429), 429);
}

#[test]
fn ends_keep_their_meaning() {
    for (native, outcome) in [
        (NativeTerminalOutcome::Complete, SemanticTerminalOutcome::Complete),
        (NativeTerminalOutcome::Incomplete, SemanticTerminalOutcome::Incomplete),
        (NativeTerminalOutcome::Failed, SemanticTerminalOutcome::Failed),
        (NativeTerminalOutcome::Unknown, SemanticTerminalOutcome::Unknown),
    ] {
        assert_eq!(native_terminal(native), outcome);
    }
    for (reason, outcome) in [
        (FinishReason::Stop, SemanticTerminalOutcome::Complete),
        (FinishReason::ToolCall, SemanticTerminalOutcome::Complete),
        (FinishReason::Length, SemanticTerminalOutcome::Incomplete),
        (FinishReason::Refusal, SemanticTerminalOutcome::Incomplete),
        (FinishReason::Cancelled, SemanticTerminalOutcome::Incomplete),
        (FinishReason::Other, SemanticTerminalOutcome::Incomplete),
    ] {
        assert_eq!(semantic_terminal_for_finish_reason(reason), outcome);
    }
}

#[test]
fn final_facts_add_the_end_and_the_usage() {
    let (mut state, _) = opened(true, true);
    state.semantic_terminal = Some(SemanticTerminalOutcome::Incomplete);
    let published = semantic_response_facts(200);
    let empty = ModelUsage {
        input_tokens: None,
        output_tokens: None,
        cache_read_tokens: None,
        cache_write_tokens: None,
        reasoning_tokens: None,
    };
    let facts = finalize_attempt_facts(&state, None, Some(&published), None, Some(empty), 42);
    assert_eq!(facts.model_event.as_deref(), Some("response_incomplete"));
    assert_eq!(facts.ended_at, Some(42));
    assert!(facts.usage.is_none());
    assert_eq!(facts.http_status, Some(200));
    let told = ModelUsage { output_tokens: Some(5), ..empty };
    let mut readiness = take_readiness(&mut state, 200, "text/event-stream", false).unwrap();
    readiness.semantic_terminal = Some(SemanticTerminalOutcome::Complete);
    let facts =
        finalize_attempt_facts(&state, Some(&readiness), None, Some(told), Some(empty), 43);
    assert_eq!(facts.model_event.as_deref(), Some("response_complete"));
    assert_eq!(facts.usage.unwrap().output, UsageDimension::Reported(5));
    assert_eq!(
        accepted_response_head(&readiness, Disposition::Accept),
        Ok((200, "text/event-stream".to_owned()))
    );
    assert_eq!(
        accepted_response_head(&readiness, Disposition::Continue).unwrap_err(),
        "Continue cannot emit a final response"
    );
}
