use hiroute::runtime::accepted::{
    encode_accepted_event, on_accepted_events, on_accepted_units, take_accepted_prefix,
    AcceptedEvent, AcceptedStep, SemanticProvenance,
};
use hiroute::runtime::body::{push_queue_bytes, BodyQueue, PrecommitDecoderBudget, StreamBudget};
use hiroute::runtime::facts::IngressProtocol;
use hiroute::runtime::profile::{
    connector_error_profile, AuthenticationSemantics, CandidateCapability, CandidateProtocolProfile,
    ConnectorErrors, ConnectorHeaders, ConnectorProfile,
};
use hiroute::runtime::response::{
    DecodeEnd, DecodeReport, DecodedEvent, FinishReason, ModelEvent, NativeTerminalOutcome,
    NativeUnit, ProductionReadiness, SemanticTerminalOutcome,
};

const MIB: usize = 1024 * 1024;

/// What the record of one charge takes.
const RESERVATION: usize = 64;

/// What a decoder may retain before its response is committed.
const MAX_RENDERED_PRECOMMIT_BYTES: usize = 256 * 1024;

fn exact_profile(model: &str) -> CandidateProtocolProfile {
    CandidateProtocolProfile {
        schema_version: "hiroute.candidate-protocol-profile/v1".to_owned(),
        adapter_revision: "adapter".to_owned(),
        serializer_revision: "serializer".to_owned(),
        decoder_revision: "decoder".to_owned(),
        ingress_protocol: IngressProtocol::Responses,
        capability: CandidateCapability {
            schema_version: "hiroute.candidate-capability/v1".to_owned(),
            upstream_protocol: IngressProtocol::Responses,
            native_model: model.to_owned(),
        },
        connector: ConnectorProfile {
            schema_version: "hiroute.connector-profile/v1".to_owned(),
            connector_id: "connector".to_owned(),
            request_path: "/v1/responses".to_owned(),
            upstream_protocol: IngressProtocol::Responses,
            critical_facts_exact: true,
            authentication: Some(AuthenticationSemantics::Required),
            headers: Some(ConnectorHeaders {
                content_type: "application/json".to_owned(),
                required_headers: vec![],
            }),
            errors: Some(ConnectorErrors {
                http_status_typed: true,
                sse_error_typed: true,
                retry_after_header: Some("retry-after".to_owned()),
            }),
        },
        provider_path_exact: true,
        reasoning_valid: true,
    }
}

fn sealed_semantics() {
    let mut profile = exact_profile("gpt-codex");
    profile.connector.connector_id = "connector.cpa.codex".into();
    assert!(connector_error_profile(&profile).is_ok());

    profile.connector.request_path = "/registered/provider/responses".into();
    assert!(
        connector_error_profile(&profile).is_ok(),
        "a catalog-bound exact provider path need not equal the public ingress path"
    );

    profile.connector.schema_version = "hiroute.connector-profile/v2".into();
    assert!(connector_error_profile(&profile).is_err());
}

#[test]
fn response_connector_error_semantics_are_sealed_by_profile_not_connector_allowlist() {
    sealed_semantics();
}

#[test]
fn response_budget_tests_connector_error_semantics_are_sealed_by_profile_not_connector_allowlist() {
    sealed_semantics();
}

#[test]
fn error_profiles_tell_which_failures_are_typed() {
    let profile = exact_profile("model");
    let errors = connector_error_profile(&profile).unwrap();
    assert!(errors.http_status_typed && errors.stream_error_typed && errors.retry_after_typed);
    let mut silent = exact_profile("model");
    silent.connector.errors = Some(ConnectorErrors {
        http_status_typed: true,
        sse_error_typed: false,
        retry_after_header: None,
    });
    let errors = connector_error_profile(&silent).unwrap();
    assert!(errors.http_status_typed && !errors.stream_error_typed && !errors.retry_after_typed);
    for change in 0..6 {
        let mut broken = exact_profile("model");
        match change {
            0 => broken.adapter_revision = "  ".to_owned(),
            1 => broken.capability.upstream_protocol = IngressProtocol::Messages,
            2 => broken.connector.critical_facts_exact = false,
            3 => broken.provider_path_exact = false,
            4 => broken.reasoning_valid = false,
            _ => broken.connector.errors = None,
        }
        assert_eq!(connector_error_profile(&broken).unwrap_err(), "protocol_failed");
    }
}

#[test]
fn response_precommit_decoder_is_bounded_by_bytes_not_transport_chunk_count() {
    let mut budget = StreamBudget::new(4 * MIB);
    let mut decoder =
        PrecommitDecoderBudget::new(&mut budget, MAX_RENDERED_PRECOMMIT_BYTES, RESERVATION).unwrap();
    for _ in 0..1_000 {
        decoder.charge_frame(&mut budget, 128).unwrap();
    }
    assert!(
        decoder.charge_frame(&mut budget, MAX_RENDERED_PRECOMMIT_BYTES).is_err(),
        "the byte ceiling remains authoritative"
    );
}

#[test]
fn response_budget_tests_precommit_decoder_is_bounded_by_bytes_not_transport_chunk_count() {
    let mut budget = StreamBudget::new(4 * MIB);
    let mut decoder = PrecommitDecoderBudget::new(&mut budget, 16 * MIB, RESERVATION).unwrap();
    for _ in 0..1_000 {
        decoder.charge_frame(&mut budget, 128).unwrap();
    }
    decoder.charge_frame(&mut budget, 256 * 1024).unwrap();
    assert!(
        decoder.charge_frame(&mut budget, 4 * MIB).is_err(),
        "the actual memory budget remains authoritative"
    );
}

#[test]
fn decoder_accounts_need_room_for_their_own_records() {
    let mut budget = StreamBudget::new(1024);
    assert_eq!(
        PrecommitDecoderBudget::new(&mut budget, 1, RESERVATION).unwrap_err(),
        "stream memory budget exceeded"
    );
    assert_eq!(budget.live, 0);
    assert_eq!(
        PrecommitDecoderBudget::new(&mut budget, 1, usize::MAX).unwrap_err(),
        "native decoder metadata budget overflow"
    );
    let mut wide = StreamBudget::new(MIB);
    let mut decoder = PrecommitDecoderBudget::new(&mut wide, 10, RESERVATION).unwrap();
    assert_eq!(wide.live, 65 * RESERVATION);
    decoder.charge_frame(&mut wide, 10).unwrap();
    assert_eq!(decoder.raw_bytes, 10);
    assert!(decoder.charged_bytes >= 28);
    assert_eq!(
        decoder.charge_frame(&mut wide, 1).unwrap_err(),
        "native precommit decoder byte limit exceeded"
    );
}

#[test]
fn protocol_prefix_grows_beyond_initial_queue_capacity_and_releases_memory() {
    let mut budget = StreamBudget::new(16 * MIB);
    let mut queue = BodyQueue::new(64 * 1024, usize::MAX);
    let expected = vec![b'x'; 2 * MIB];
    push_queue_bytes(&mut queue, &mut budget, &expected).unwrap();
    assert_eq!(queue.len(), 32);
    let mut actual = Vec::new();
    while let Some(chunk) = queue.pop_front() {
        actual.extend_from_slice(&chunk);
        budget.release(chunk.len());
    }
    assert_eq!(actual, expected);
    queue.clear_and_release(&mut budget);
    assert_eq!(budget.live, 0);
}

#[test]
fn queues_refuse_what_their_budget_or_limit_cannot_hold() {
    let mut budget = StreamBudget::new(100);
    let mut queue = BodyQueue::new(8, 10);
    assert_eq!(
        push_queue_bytes(&mut queue, &mut budget, &[1; 11]).unwrap_err(),
        "response body queue limit exceeded"
    );
    let mut narrow = StreamBudget::new(10);
    let mut wide = BodyQueue::new(8, 100);
    assert_eq!(
        push_queue_bytes(&mut wide, &mut narrow, &[1; 11]).unwrap_err(),
        "stream memory budget exceeded"
    );
    let mut exact = StreamBudget::new(9);
    assert!(exact.reserve(9).is_ok());
    assert!(exact.reserve(1).is_err());
}

fn readiness(prefix: BodyQueue) -> ProductionReadiness {
    ProductionReadiness {
        response_status: 200,
        content_type: "text/event-stream".to_owned(),
        prefix,
        terminal_body: None,
        decoder: false,
        renderer: false,
        projector: true,
        decoder_budget: None,
        streaming: true,
        prefix_eos_pending: false,
        prefix_terminal_chunks: None,
        semantic_terminal: None,
    }
}

#[test]
fn accepted_codex_terminal_event_crosses_transport_frames_and_keeps_eos() {
    let mut budget = StreamBudget::new(8 * MIB);
    let mut readiness = readiness(BodyQueue::new(64 * 1024, 256 * 1024));
    // What the projector makes of a terminal event that is larger than one transport frame.
    let wire = format!(
        "event: response.completed\ndata: {{\"type\":\"response.completed\",\"response\":{{\"model\":\"alias\",\"instructions\":\"{}\"}}}}\n\ndata: [DONE]\n\n",
        "x".repeat(100_000)
    );
    assert!(matches!(
        encode_accepted_event(&mut readiness, AcceptedEvent::Body).unwrap(),
        AcceptedStep::Feed { projector: true, end_stream: false }
    ));
    let units = Some(vec![NativeUnit {
        bytes: wire.clone().into_bytes(),
        semantic: true,
        terminal: Some(NativeTerminalOutcome::Complete),
        failure: None,
    }]);
    let mut next = Some(on_accepted_units(&mut readiness, &mut budget, &units).unwrap());
    let mut reconstructed = Vec::new();
    let mut frames = 0;
    let mut eos = 0;
    let mut source_end_sent = false;
    loop {
        let step = match next.take() {
            Some(step) => step,
            None => match take_accepted_prefix(&mut readiness) {
                Some(event) => encode_accepted_event(&mut readiness, event).unwrap(),
                None if !source_end_sent => {
                    source_end_sent = true;
                    encode_accepted_event(&mut readiness, AcceptedEvent::EndStream).unwrap()
                }
                None => break,
            },
        };
        match step {
            AcceptedStep::Frame(frame) => {
                if let Some((bytes, _)) = frame.output {
                    assert!(bytes.len() <= 64 * 1024);
                    reconstructed.extend_from_slice(&bytes);
                    frames += 1;
                }
                eos += usize::from(frame.end_stream);
            }
            AcceptedStep::Feed { .. } => {
                let none = Some(vec![]);
                next = Some(on_accepted_units(&mut readiness, &mut budget, &none).unwrap());
            }
            AcceptedStep::Nothing => {}
        }
    }
    assert!(frames >= 2);
    assert_eq!(eos, 1);
    assert_eq!(reconstructed, wire.into_bytes());
    assert!(reconstructed.starts_with(b"event: response.completed\n"));
    assert!(reconstructed.ends_with(b"data: [DONE]\n\n"));
    assert!(std::str::from_utf8(&reconstructed).unwrap().contains("\"model\":\"alias\""));
    assert_eq!(readiness.semantic_terminal, Some(SemanticTerminalOutcome::Complete));
}

#[test]
fn terminal_bodies_and_encoded_events_leave_as_they_are() {
    let mut readiness = readiness(BodyQueue::new(8, 64));
    readiness.terminal_body = Some(b"kept".to_vec());
    let event = AcceptedEvent::Terminal {
        body: Some(b"other".to_vec()),
        provenance: SemanticProvenance::NonSemantic,
    };
    match encode_accepted_event(&mut readiness, event).unwrap() {
        AcceptedStep::Frame(frame) => {
            assert!(frame.end_stream);
            assert_eq!(frame.output.unwrap().0, b"kept".to_vec());
        }
        other => panic!("{other:?}"),
    }
    let event = AcceptedEvent::Encoded {
        bytes: b"raw".to_vec(),
        end_stream: false,
        provenance: SemanticProvenance::ProducesSemantic,
    };
    match encode_accepted_event(&mut readiness, event).unwrap() {
        AcceptedStep::Frame(frame) => {
            assert!(!frame.end_stream);
            assert_eq!(frame.output.unwrap().0, b"raw".to_vec());
        }
        other => panic!("{other:?}"),
    }
    readiness.streaming = false;
    assert_eq!(
        encode_accepted_event(&mut readiness, AcceptedEvent::Body).unwrap_err(),
        "nonstream response had an unclassified transport tail"
    );
}

#[test]
fn accepted_streams_that_are_decoded_end_once() {
    let decoded = || {
        let mut readiness = readiness(BodyQueue::new(4, 64));
        readiness.projector = false;
        readiness.decoder = true;
        readiness.renderer = true;
        readiness
    };
    let report = |end| DecodeReport {
        events: vec![DecodedEvent {
            event: ModelEvent::FinishReason { reason: FinishReason::Stop },
            semantic: false,
            rendered: vec![b"abc".to_vec(), b"def".to_vec()],
            render_error: None,
        }],
        end,
    };
    let mut budget = StreamBudget::new(MIB);
    let mut readiness = decoded();
    assert!(matches!(
        on_accepted_events(&mut readiness, &mut budget, &report(DecodeEnd::Complete), Some(true)),
        Ok(AcceptedStep::Nothing)
    ));
    assert_eq!(readiness.semantic_terminal, Some(SemanticTerminalOutcome::Complete));
    let mut ends = vec![];
    let mut bytes = vec![];
    while let Some(event) = take_accepted_prefix(&mut readiness) {
        match encode_accepted_event(&mut readiness, event).unwrap() {
            AcceptedStep::Frame(frame) => {
                ends.push(frame.end_stream);
                bytes.extend(frame.output.unwrap().0);
            }
            other => panic!("{other:?}"),
        }
    }
    assert_eq!(ends, vec![false, true]);
    assert_eq!(bytes, b"abcdef".to_vec());
    for (end, finished, expected) in [
        (DecodeEnd::Malformed, None, "accepted native stream is malformed"),
        (DecodeEnd::DrainFailed, None, "accepted native stream drain failed"),
        (DecodeEnd::Complete, Some(false), "accepted native stream ended without terminal"),
    ] {
        let mut readiness = decoded();
        assert_eq!(
            on_accepted_events(&mut readiness, &mut budget, &report(end), finished).unwrap_err(),
            expected
        );
    }
    let mut closed = decoded();
    closed.decoder = false;
    assert_eq!(
        on_accepted_events(&mut closed, &mut budget, &report(DecodeEnd::Complete), Some(true))
            .unwrap_err(),
        "accepted native decoder is unavailable"
    );
}
