use hiroute::runtime::attempt::{
    next_step, AttemptAnswers, AttemptContext, LeaseTargetFacts, MaterializationStep,
    PreparedRequest, SealedAnswer, TemplateAnswer,
};
use hiroute::runtime::body::{BodyQueue, PrecommitDecoderBudget, StreamBudget};
use hiroute::runtime::facts::{
    AttemptFailure, AttemptFailureClass, AttemptTimeoutPhase, FailureStateScope, IngressProtocol,
    ProviderClassificationFacts, RetryabilityFact,
};
use hiroute::runtime::materialization::{
    begin_request, classify_materialization_failure, consume_request_body, dns_lookup_target,
    finalize_route_request_context, finish_lookup, finish_request_body, lease_logical_endpoint,
    mechanical_failure, mechanical_failure_to_classify, mechanical_failure_write,
    new_attempt_state, operational_target_matches_plan, permit_or_materialization_error,
    plan_codecs, release_terminal_request, request_headers, request_path, seal_headers,
    target_host,
    AttemptMaterializationFailureClass, AttemptTimeoutKind, ConnectorRuntimeKind,
    CredentialLease, ExecutionEvidence, IpBits, LeaseOutcome, LeaseTarget, OperationalTarget,
    OperationalTargetKind, ProductionLogicalRequest, ProductionReplaySeed, RequestHeaders, RequestIr,
    RuntimeStateAuthoritySignal, SealedCandidateExecution, TransportAddress, TransportOverride,
    TransportScheme, TransportTarget,
};
use hiroute::runtime::profile::{
    AuthenticationSemantics, CandidateCapability, CandidateProtocolProfile, ConnectorErrors,
    ConnectorHeaders, ConnectorProfile,
};
use hiroute::runtime::provider::{
    confirm_attempt_failure, finish_confirmation, resolved_transport_target, Confirmation,
    ProductionProvider,
};
use hiroute::runtime::response::{failure_facts, ProductionAttemptState, RawAttemptFailure};
use hiroute::runtime::selection::{
    CoreAttemptFailureClass, DecisionCandidateAuthority, ProductionRouteContext,
    ResolvedTargetBindingId,
};
use hiroute::runtime::state::{
    acquire_target_permit, acquire_target_permit_status, confirm_success, finish_probe_lease,
    finish_state_write, native_endpoint_state_key, record_failure_at, transient_backoff_delay,
    validate_attempt_permits, AttemptStatePermits, CasOutcome, OwnedAttemptStatePermits,
    PermitAvailability, PermitStep,
    PermitTarget, ProbeLeaseOutcome, RuntimeCooldownPolicy, RuntimeHealth, RuntimeStateEntry,
    RuntimeStateError, RuntimeStateKey, ScopeError, StateAccessError, StatePermit,
};

const SECOND: u128 = 1_000_000_000;
const NOW: u128 = 1_000 * SECOND;

fn dns_lookups() {
    assert_eq!(
        dns_lookup_target("provider.example", TransportScheme::Https).unwrap(),
        ("provider.example".to_owned(), 443)
    );
    assert_eq!(
        dns_lookup_target("provider.example:8443", TransportScheme::Https).unwrap(),
        ("provider.example".to_owned(), 8443)
    );
    assert_eq!(
        dns_lookup_target("provider.example", TransportScheme::Http).unwrap(),
        ("provider.example".to_owned(), 80)
    );
}

#[test]
fn materialization_dns_lookup_uses_scheme_default_and_preserves_explicit_port() {
    dns_lookups();
}

#[test]
fn materialization_tests_dns_lookup_uses_scheme_default_and_preserves_explicit_port() {
    dns_lookups();
}

#[test]
fn unreadable_authorities_fail_the_lookup() {
    assert_eq!(
        dns_lookup_target("a b", TransportScheme::Http).unwrap_err(),
        "dns_failed"
    );
}

fn permit(generation: u64) -> StatePermit {
    StatePermit { generation, probe: false, transient_backoff_step: 0 }
}

fn permits() -> AttemptStatePermits {
    AttemptStatePermits { binding: permit(0), credential: Some(permit(0)) }
}

fn failure(class: AttemptFailureClass, scope: FailureStateScope) -> AttemptFailure {
    AttemptFailure {
        class,
        status: None,
        retry_after: None,
        state_scope: Some(scope),
        disables_credential: false,
        precommit_relayable: true,
    }
}

fn mechanical_failures_cool_the_binding() {
    for (class, timeout, raw, classified) in [
        (
            CoreAttemptFailureClass::Connect,
            None,
            RawAttemptFailure::Connect,
            AttemptFailureClass::Transient,
        ),
        (
            CoreAttemptFailureClass::Connect,
            Some(AttemptTimeoutKind::Connect),
            RawAttemptFailure::Timeout { phase: AttemptTimeoutPhase::Connect },
            AttemptFailureClass::Timeout(AttemptTimeoutPhase::Connect),
        ),
        (
            CoreAttemptFailureClass::FirstByte,
            Some(AttemptTimeoutKind::FirstByte),
            RawAttemptFailure::Timeout { phase: AttemptTimeoutPhase::FirstByte },
            AttemptFailureClass::Timeout(AttemptTimeoutPhase::FirstByte),
        ),
        (
            CoreAttemptFailureClass::StreamIdle,
            Some(AttemptTimeoutKind::StreamIdle),
            RawAttemptFailure::Timeout { phase: AttemptTimeoutPhase::StreamIdle },
            AttemptFailureClass::Timeout(AttemptTimeoutPhase::StreamIdle),
        ),
    ] {
        assert_eq!(mechanical_failure(class, timeout), Some(raw));
        let facts = failure_facts(&failure(classified, FailureStateScope::Binding));
        assert_eq!(facts.retryability, RetryabilityFact::Retryable);
        let mut signal = RuntimeStateAuthoritySignal::default();
        let write = mechanical_failure_write(
            permits(),
            &failure(classified, FailureStateScope::Binding),
            &RuntimeCooldownPolicy::default(),
            NOW,
            &mut signal,
        )
        .unwrap()
        .expect("mechanical failure is classified");
        assert!(!signal.failed);
        assert_eq!(write.target, PermitTarget::Binding);
        assert_eq!(write.next.generation, 1);
        assert!(matches!(write.next.health, RuntimeHealth::CoolingDown { .. }));
    }
    assert_eq!(mechanical_failure(CoreAttemptFailureClass::Materialization, None), None);
}

#[test]
fn materialization_connect_first_byte_and_idle_failures_cool_exact_binding() {
    mechanical_failures_cool_the_binding();
}

#[test]
fn materialization_tests_connect_first_byte_and_idle_failures_cool_exact_binding() {
    mechanical_failures_cool_the_binding();
}

fn state_write_errors_fail_closed() {
    let mut signal = RuntimeStateAuthoritySignal::default();
    let (raw, _) = mechanical_failure_to_classify(
        &profile(AuthenticationSemantics::Required),
        CoreAttemptFailureClass::Connect,
        None,
    )
    .unwrap()
    .unwrap();
    assert_eq!(raw, RawAttemptFailure::Connect);
    let write = mechanical_failure_write(
        permits(),
        &failure(AttemptFailureClass::Transient, FailureStateScope::Binding),
        &RuntimeCooldownPolicy::default(),
        NOW,
        &mut signal,
    )
    .unwrap()
    .unwrap();
    assert!(!signal.failed);
    let unavailable = Err(StateAccessError::Store(RuntimeStateError::Unavailable));
    let error = finish_confirmation(&write, unavailable, &mut signal).unwrap_err();
    assert_eq!(error, "runtime_state_authority_failed");
    assert!(signal.failed);
}

#[test]
fn conditional_writes_that_were_not_applied_fail_the_request() {
    let write = || {
        record_failure_at(
            permits(),
            &failure(AttemptFailureClass::Transient, FailureStateScope::Binding),
            &RuntimeCooldownPolicy::default(),
            NOW,
        )
        .unwrap()
        .unwrap()
    };
    for outcome in [
        Ok(CasOutcome::Conflict),
        Ok(CasOutcome::Applied { generation: 7 }),
        Err(StateAccessError::Scope(ScopeError::Deadline)),
    ] {
        let mut signal = RuntimeStateAuthoritySignal::default();
        assert!(finish_confirmation(&write(), outcome, &mut signal).is_err());
        assert!(signal.failed);
    }
    let mut signal = RuntimeStateAuthoritySignal::default();
    let applied = Ok(CasOutcome::Applied { generation: 1 });
    assert!(finish_confirmation(&write(), applied, &mut signal).is_ok());
    assert!(!signal.failed);
}

#[test]
fn materialization_mechanical_failure_state_write_error_is_fail_closed() {
    state_write_errors_fail_closed();
}

#[test]
fn materialization_tests_mechanical_failure_state_write_error_is_fail_closed() {
    state_write_errors_fail_closed();
}

#[test]
fn backoff_doubles_up_to_its_bound() {
    let mut step = 0;
    for seconds in [2, 4, 8, 16, 30, 30] {
        let permits = AttemptStatePermits {
            binding: StatePermit { generation: 3, probe: false, transient_backoff_step: step },
            credential: None,
        };
        let write = record_failure_at(
            permits,
            &failure(AttemptFailureClass::Disconnect, FailureStateScope::Binding),
            &RuntimeCooldownPolicy::default(),
            NOW,
        )
        .unwrap()
        .unwrap();
        assert_eq!(
            write.next.health,
            RuntimeHealth::CoolingDown { until: NOW + seconds * SECOND }
        );
        step = write.next.transient_backoff_step;
    }
    assert_eq!(transient_backoff_delay(0), 2 * SECOND);
    assert_eq!(transient_backoff_delay(200), 30 * SECOND);
}

#[test]
fn failures_rest_their_own_scope() {
    let policy = RuntimeCooldownPolicy::default();
    let quota = failure(AttemptFailureClass::Quota, FailureStateScope::Credential);
    let write = record_failure_at(permits(), &quota, &policy, NOW).unwrap().unwrap();
    assert_eq!(write.target, PermitTarget::Credential);
    assert_eq!(write.next.health, RuntimeHealth::CoolingDown { until: NOW + 60 * SECOND });
    let without = AttemptStatePermits { binding: permit(0), credential: None };
    assert_eq!(
        record_failure_at(without, &quota, &policy, NOW).unwrap().unwrap().target,
        PermitTarget::Binding
    );
    let overload = failure(AttemptFailureClass::BindingOverload, FailureStateScope::Binding);
    let write = record_failure_at(permits(), &overload, &policy, NOW).unwrap().unwrap();
    assert_eq!(write.next.health, RuntimeHealth::CoolingDown { until: NOW + 15 * SECOND });
    let told = AttemptFailure { retry_after: Some(7 * SECOND), ..overload };
    let write = record_failure_at(permits(), &told, &policy, NOW).unwrap().unwrap();
    assert_eq!(write.next.health, RuntimeHealth::CoolingDown { until: NOW + 7 * SECOND });
    let disabled = AttemptFailure { disables_credential: true, ..quota };
    let write = record_failure_at(permits(), &disabled, &policy, NOW).unwrap().unwrap();
    assert_eq!(write.next.health, RuntimeHealth::Disabled);
    let untouched = AttemptFailure { state_scope: None, ..quota };
    assert_eq!(record_failure_at(permits(), &untouched, &policy, NOW), Ok(None));
    let last = AttemptStatePermits { binding: permit(u64::MAX), credential: None };
    assert_eq!(
        record_failure_at(last, &overload, &policy, NOW),
        Err(StateAccessError::InvalidTransition)
    );
}

#[test]
fn permits_follow_the_state_that_was_read() {
    let active = RuntimeStateEntry::default();
    assert_eq!(
        acquire_target_permit_status(&active, NOW, NOW, NOW + SECOND),
        Ok(PermitStep::Available(PermitAvailability::Permit(permit(0))))
    );
    let disabled = RuntimeStateEntry { health: RuntimeHealth::Disabled, ..active };
    assert_eq!(
        acquire_target_permit_status(&disabled, NOW, NOW, NOW + SECOND),
        Ok(PermitStep::Available(PermitAvailability::Disabled))
    );
    let resting = RuntimeStateEntry {
        generation: 4,
        health: RuntimeHealth::CoolingDown { until: NOW + SECOND },
        probe_lease_until: None,
        transient_backoff_step: 2,
    };
    assert_eq!(
        acquire_target_permit_status(&resting, NOW, NOW, NOW + 9 * SECOND),
        Ok(PermitStep::Available(PermitAvailability::CoolingDown { until: NOW + SECOND }))
    );
    assert_eq!(
        acquire_target_permit_status(&resting, NOW + SECOND, NOW + SECOND, NOW + SECOND),
        Err(StateAccessError::Scope(ScopeError::Deadline))
    );
    let request =
        match acquire_target_permit_status(&resting, NOW + SECOND, NOW + SECOND, NOW + 9 * SECOND) {
            Ok(PermitStep::AcquireProbeLease(request)) => request,
            other => panic!("{other:?}"),
        };
    assert_eq!(request.lease_duration, 8 * SECOND);
    let probe = finish_probe_lease(request, Ok(ProbeLeaseOutcome::Acquired { generation: 5 })).unwrap();
    assert_eq!(
        acquire_target_permit(probe),
        Some(StatePermit { generation: 5, probe: true, transient_backoff_step: 2 })
    );
    assert_eq!(
        finish_probe_lease(request, Ok(ProbeLeaseOutcome::Busy)),
        Ok(PermitAvailability::ProbeBusy)
    );
    assert_eq!(
        finish_probe_lease(request, Ok(ProbeLeaseOutcome::Conflict)),
        Err(StateAccessError::Conflict)
    );
}

#[test]
fn confirmed_probes_return_their_target() {
    let leased = RuntimeStateEntry {
        generation: 5,
        health: RuntimeHealth::CoolingDown { until: NOW },
        probe_lease_until: Some(NOW + SECOND),
        transient_backoff_step: 2,
    };
    let probe = StatePermit { generation: 5, probe: true, transient_backoff_step: 2 };
    let write = confirm_success(PermitTarget::Binding, &leased, probe, NOW).unwrap().unwrap();
    assert_eq!(write.next.health, RuntimeHealth::Active);
    assert_eq!(write.next.generation, 6);
    assert_eq!(write.next.transient_backoff_step, 0);
    assert_eq!(finish_state_write(5, Ok(CasOutcome::Applied { generation: 6 })), Ok(()));
    assert_eq!(
        finish_state_write(5, Ok(CasOutcome::Applied { generation: 5 })),
        Err(StateAccessError::Conflict)
    );
    assert_eq!(
        confirm_success(PermitTarget::Binding, &leased, probe, NOW + SECOND),
        Err(StateAccessError::Conflict)
    );
    let active = RuntimeStateEntry::default();
    assert_eq!(confirm_success(PermitTarget::Binding, &active, permit(0), NOW), Ok(None));
    assert_eq!(
        validate_attempt_permits(permits(), (&active, NOW), Some((&active, NOW))),
        Ok(())
    );
    assert_eq!(
        validate_attempt_permits(permits(), (&active, NOW), Some((&leased, NOW))),
        Err(StateAccessError::Conflict)
    );
}

#[test]
fn state_errors_say_what_failed() {
    assert_eq!(
        StateAccessError::Scope(ScopeError::Cancelled).message(),
        "runtime state operation exceeded the shared request scope"
    );
    assert_eq!(
        StateAccessError::Store(RuntimeStateError::Unavailable).message(),
        "runtime state authority failed"
    );
    assert_eq!(
        StateAccessError::Conflict.message(),
        "runtime state generation changed during a required transition"
    );
    assert_eq!(
        StateAccessError::InvalidTransition.message(),
        "runtime state transition is invalid"
    );
}

#[test]
fn endpoints_of_one_binding_have_their_own_keys() {
    let digest = format!("sha256:{}", "0123456789abcdef".repeat(4));
    assert_eq!(
        native_endpoint_state_key("binding", &digest).unwrap(),
        "binding/0123456789abcdef0123456789abcdef"
    );
    assert_eq!(native_endpoint_state_key("binding", "sha256:12"), None);
    assert_eq!(native_endpoint_state_key("binding", "md5:12"), None);
}

#[test]
fn cooldowns_survive_their_error_text() {
    let error = permit_or_materialization_error(
        PermitAvailability::CoolingDown { until: NOW + SECOND + 1 },
        true,
        NOW,
    )
    .unwrap_err();
    assert_eq!(error, "binding_cooling_down:1001");
    let classified = classify_materialization_failure(&error);
    assert_eq!(classified.class, AttemptMaterializationFailureClass::Materialization);
    assert_eq!(classified.provider.retry_after, Some(1_001_000_000));
    assert_eq!(
        classified.provider.error_class.as_deref(),
        Some("runtime_state_cooling_down")
    );
}

#[test]
fn materialization_errors_are_classified() {
    for (error, class, label, retryable) in [
        ("dns_failed", AttemptMaterializationFailureClass::Dns, "materialization_retryable", true),
        (
            "credential_exhausted",
            AttemptMaterializationFailureClass::Credential,
            "materialization_retryable",
            true,
        ),
        (
            "credential_probe_busy",
            AttemptMaterializationFailureClass::Credential,
            "runtime_state_probe_busy",
            true,
        ),
        (
            "binding_disabled",
            AttemptMaterializationFailureClass::Materialization,
            "runtime_state_disabled",
            true,
        ),
        (
            "protocol_failed",
            AttemptMaterializationFailureClass::Materialization,
            "materialization_fail_closed",
            false,
        ),
        (
            "binding_cooling_down:0",
            AttemptMaterializationFailureClass::Materialization,
            "materialization_fail_closed",
            false,
        ),
    ] {
        let failure = classify_materialization_failure(error);
        assert_eq!(failure.class, class, "{error}");
        assert_eq!(failure.provider.error_class.as_deref(), Some(label), "{error}");
        assert_eq!(
            failure.provider.retryability == RetryabilityFact::Retryable,
            retryable,
            "{error}"
        );
    }
    assert_eq!(
        classify_materialization_failure("binding_probe_busy").provider.retry_after,
        Some(SECOND)
    );
}

fn binding() -> ResolvedTargetBindingId {
    ResolvedTargetBindingId { plan_revision: 1, local_id: 1 }
}

fn digest(c: &str) -> String {
    format!("sha256:{}", c.repeat(64))
}

fn candidate() -> DecisionCandidateAuthority {
    DecisionCandidateAuthority {
        binding: binding(),
        stable_target: "target".to_owned(),
        credential_refs: vec!["credential/key".to_owned()],
        candidate_id: Some("candidate".to_owned()),
        profile_digest: Some(digest("a")),
        reason_ledger_identity: Some("ledger".to_owned()),
        provider_profile: Some(vec![1]),
    }
}

fn ir() -> RequestIr {
    RequestIr {
        ingress_protocol: IngressProtocol::Responses,
        stream: true,
        served_model_id: "alias".to_owned(),
    }
}

fn route() -> ProductionRouteContext {
    ProductionRouteContext {
        ingress: IngressProtocol::Responses,
        hold_completion: None,
        switch_fallback: None,
    }
}

fn seed() -> ProductionReplaySeed {
    ProductionReplaySeed {
        ingress: IngressProtocol::Responses,
        raw_body_bytes: 5,
        ir: ir(),
        route_context: route(),
    }
}

fn logical() -> ProductionLogicalRequest {
    begin_request(Some(IngressProtocol::Responses), Some(seed()), Some(vec![candidate()])).unwrap()
}

#[test]
fn requests_hand_their_context_out_once_their_body_is_whole() {
    assert_eq!(request_path("/v1/responses?x=1"), "/v1/responses");
    let mut request = logical();
    assert!(finalize_route_request_context(&mut request).is_err());
    assert_eq!(consume_request_body(&mut request, Some(3), false), Ok(false));
    assert_eq!(consume_request_body(&mut request, Some(2), true), Ok(true));
    assert!(finish_request_body(&mut request, Ok(())).is_ok());
    assert!(finalize_route_request_context(&mut request).is_ok());
    assert!(finalize_route_request_context(&mut request).is_err());
    assert!(consume_request_body(&mut request, None, true).is_err());
    release_terminal_request(&mut request);
    assert!(request.ir.is_none());
    let mut short = logical();
    assert_eq!(
        consume_request_body(&mut short, Some(4), true),
        Err("protocol_failed".to_owned())
    );
}

#[test]
fn incomplete_requests_do_not_begin() {
    let mut incomplete = candidate();
    incomplete.reason_ledger_identity = None;
    for (ingress, seed, candidates) in [
        (None, Some(seed()), Some(vec![candidate()])),
        (Some(IngressProtocol::Messages), Some(seed()), Some(vec![candidate()])),
        (Some(IngressProtocol::Responses), None, Some(vec![candidate()])),
        (Some(IngressProtocol::Responses), Some(seed()), None),
        (Some(IngressProtocol::Responses), Some(seed()), Some(vec![])),
        (Some(IngressProtocol::Responses), Some(seed()), Some(vec![incomplete])),
    ] {
        assert_eq!(begin_request(ingress, seed, candidates).unwrap_err(), "protocol_failed");
    }
}

fn profile(authentication: AuthenticationSemantics) -> CandidateProtocolProfile {
    CandidateProtocolProfile {
        schema_version: "hiroute.candidate-protocol-profile/v1".to_owned(),
        adapter_revision: "adapter".to_owned(),
        serializer_revision: "serializer".to_owned(),
        decoder_revision: "decoder".to_owned(),
        ingress_protocol: IngressProtocol::Responses,
        capability: CandidateCapability {
            schema_version: "hiroute.candidate-capability/v1".to_owned(),
            upstream_protocol: IngressProtocol::Messages,
            native_model: "model".to_owned(),
        },
        connector: ConnectorProfile {
            schema_version: "hiroute.connector-profile/v1".to_owned(),
            connector_id: "connector".to_owned(),
            request_path: "/v1/messages".to_owned(),
            upstream_protocol: IngressProtocol::Messages,
            critical_facts_exact: true,
            authentication: Some(authentication),
            headers: Some(ConnectorHeaders {
                content_type: "application/json".to_owned(),
                required_headers: vec![("X-Version".to_owned(), "1".to_owned())],
            }),
            errors: Some(ConnectorErrors {
                http_status_typed: true,
                sse_error_typed: true,
                retry_after_header: None,
            }),
        },
        provider_path_exact: true,
        reasoning_valid: true,
    }
}

fn planned() -> TransportTarget {
    TransportTarget {
        scheme: TransportScheme::Https,
        authority: "provider.example".to_owned(),
        unresolved_authority: Some("provider.example".to_owned()),
        addresses: vec![],
        sni: Some("provider.example".to_owned()),
    }
}

fn sealed(runtime: ConnectorRuntimeKind, authentication: AuthenticationSemantics) -> SealedAnswer {
    SealedAnswer {
        execution: SealedCandidateExecution {
            schema_version: "schema".to_owned(),
            stable_target_key: "target".to_owned(),
            credential_destination_ref: "destination".to_owned(),
            logical_endpoint: "https://provider.example/v1".to_owned(),
            upstream_model_id: "model".to_owned(),
            native_transport_model: "model".to_owned(),
            connector_runtime: runtime,
            profile_digest: digest("a"),
            protocol_set_digest: digest("b"),
            operational_target: OperationalTarget {
                kind: OperationalTargetKind::RegisteredHttps,
                uri: "https://provider.example/v1/messages".to_owned(),
                runtime_epoch: Some(1),
                target_epoch: Some(1),
            },
            operational_target_digest: digest("c"),
            protocol_profile: profile(authentication),
        },
        evidence: ExecutionEvidence {
            profile_digest: Some(digest("a")),
            target_digest: Some(digest("c")),
            target_serves_path: true,
            target_is_valid: true,
            host_address: None,
        },
        native_target: None,
    }
}

fn no_answers() -> AttemptAnswers {
    AttemptAnswers {
        sealed: None,
        template: None,
        codecs: None,
        buffers: None,
        binding_permit: None,
        lease_target: None,
        lease: None,
        credential_permit: None,
        override_is_valid: None,
        looked_up: None,
        permits_are_valid: None,
        reserved: None,
        body: None,
        signed: None,
    }
}

fn lease(transport_override: Option<TransportOverride>) -> LeaseOutcome {
    LeaseOutcome::Leased(CredentialLease {
        credential_ref: "credential/key".to_owned(),
        key_id: "key".to_owned(),
        generation: 1,
        transport_override,
    })
}

fn address() -> TransportAddress {
    TransportAddress { ip: IpBits::V4(0x7f00_0001), port: 9000 }
}

fn walk(answers: &AttemptAnswers, logical: &ProductionLogicalRequest, credential_ref: &str) -> MaterializationStep {
    let target = planned();
    next_step(
        &AttemptContext {
            is_active: true,
            logical,
            binding: binding(),
            stable_target: "target",
            credential_ref,
            schema: "schema",
            target: &target,
            write_quantum: 4096,
            max_chunk_bytes: 1024,
        },
        answers,
        NOW,
    )
}

fn template(retained: Option<Option<usize>>) -> TemplateAnswer {
    TemplateAnswer { path: "/v1/messages".to_owned(), wire_bytes: 12, retained }
}

fn lease_facts() -> Option<Option<LeaseTargetFacts>> {
    Some(Some(LeaseTargetFacts {
        uri: "https://provider.example/v1/messages".to_owned(),
        digest: digest("e"),
    }))
}

fn signature() -> Option<Option<Vec<(String, String)>>> {
    Some(Some(vec![
        ("Authorization".to_owned(), "Bearer secret".to_owned()),
        ("x-hiroute-profile-digest".to_owned(), "forged".to_owned()),
    ]))
}

fn header(headers: &RequestHeaders, name: &str) -> Option<String> {
    headers.entries.iter().find(|(key, _)| key == name).map(|(_, value)| value.clone())
}

fn prepared(step: MaterializationStep) -> PreparedRequest {
    match step {
        MaterializationStep::Ready(request) => request,
        other => panic!("{other:?}"),
    }
}

fn available() -> Option<Result<PermitAvailability, ()>> {
    Some(Ok(PermitAvailability::Permit(permit(0))))
}

#[test]
fn attempts_ask_for_one_thing_after_another() {
    let request = logical();
    let mut answers = no_answers();
    let step = |answers: &AttemptAnswers| walk(answers, &request, "credential/key");
    assert!(matches!(step(&answers), MaterializationStep::ReadExecution { candidate: 0 }));
    answers.sealed = Some(Some(sealed(
        ConnectorRuntimeKind::BuiltinNative,
        AuthenticationSemantics::Required,
    )));
    assert!(matches!(step(&answers), MaterializationStep::ProjectTemplate));
    answers.template = Some(Some(template(Some(Some(8)))));
    assert!(matches!(step(&answers), MaterializationStep::OpenCodecs { needs_renderer: true }));
    answers.codecs = Some(true);
    assert!(matches!(step(&answers), MaterializationStep::ReserveBuffers));
    answers.buffers = Some(Ok(()));
    assert!(matches!(
        step(&answers),
        MaterializationStep::AcquireBindingPermit(RuntimeStateKey::Binding { stable_target })
            if stable_target == "target"
    ));
    answers.binding_permit = available();
    assert!(matches!(
        step(&answers),
        MaterializationStep::IdentifyLeaseTarget(LeaseTarget::ExecutionForPath)
    ));
    answers.lease_target = lease_facts();
    match step(&answers) {
        MaterializationStep::LeaseCredential(request) => {
            assert_eq!(request.stable_binding_id, "target");
            assert_eq!(request.credential_ref, "credential/key");
            assert_eq!(request.credential_destination_ref, "destination");
            assert!(request.excluded_key_ids.is_empty());
            assert_eq!(request.connector_id, "connector");
            assert_eq!(request.operational_target, "https://provider.example/v1/messages");
            assert_eq!(request.logical_endpoint, request.operational_target);
            assert_eq!(request.operational_target_digest, digest("e"));
            assert_eq!(request.protocol_profile_digest, digest("a"));
            assert_eq!(request.request_path, "/v1/messages");
            assert_eq!(request.runtime_epoch, Some(1));
        }
        other => panic!("{other:?}"),
    }
    answers.lease = Some(lease(None));
    assert!(matches!(
        step(&answers),
        MaterializationStep::AcquireCredentialPermit(RuntimeStateKey::Credential {
            key_id,
            generation: 1,
            ..
        }) if key_id == "key"
    ));
    answers.credential_permit = available();
    match step(&answers) {
        MaterializationStep::LookUp { host, port } => {
            assert_eq!(host, "provider.example");
            assert_eq!(port, 443);
        }
        other => panic!("{other:?}"),
    }
    answers.looked_up = Some(Some(vec![address()]));
    assert!(matches!(
        step(&answers),
        MaterializationStep::ValidatePermits(held) if held == permits()
    ));
    answers.permits_are_valid = Some(true);
    assert!(matches!(step(&answers), MaterializationStep::ReserveProjection(8)));
    answers.reserved = Some(Ok(()));
    assert!(matches!(step(&answers), MaterializationStep::OpenBody { quantum: 1024 }));
    answers.body = Some(Ok(()));
    match step(&answers) {
        MaterializationStep::Sign(headers) => {
            assert_eq!(header(&headers, "host").as_deref(), Some("provider.example"));
            assert_eq!(header(&headers, "content-length").as_deref(), Some("12"));
            assert_eq!(header(&headers, "x-version").as_deref(), Some("1"));
        }
        other => panic!("{other:?}"),
    }
    answers.signed = signature();
    let request = prepared(step(&answers));
    assert_eq!(request.path, "/v1/messages");
    assert_eq!(header(&request.headers, "authorization").as_deref(), Some("Bearer secret"));
    assert_eq!(header(&request.headers, "x-hiroute-profile-digest"), Some(digest("a")));
    assert_eq!(
        header(&request.headers, "x-hiroute-reason-ledger-id").as_deref(),
        Some("ledger")
    );
    assert_eq!(request.target.addresses, vec![address()]);
    assert!(request.target.unresolved_authority.is_none());
}

fn ready_answers(runtime: ConnectorRuntimeKind) -> AttemptAnswers {
    AttemptAnswers {
        sealed: Some(Some(sealed(runtime, AuthenticationSemantics::Required))),
        template: Some(Some(template(None))),
        codecs: Some(true),
        buffers: Some(Ok(())),
        binding_permit: available(),
        lease_target: lease_facts(),
        lease: Some(lease(None)),
        credential_permit: available(),
        override_is_valid: None,
        looked_up: Some(Some(vec![address()])),
        permits_are_valid: Some(true),
        reserved: None,
        body: Some(Ok(())),
        signed: signature(),
    }
}

fn error_of(step: MaterializationStep) -> (String, bool) {
    match step {
        MaterializationStep::Fail { error, marks } => (error, marks),
        other => panic!("{other:?}"),
    }
}

#[test]
fn attempts_fail_with_the_error_of_what_failed_first() {
    let request = logical();
    for (change, error, marks) in [
        (0, "protocol_failed", false),
        (1, "protocol_failed", false),
        (2, "runtime_state_authority_failed", true),
        (3, "binding_disabled", false),
        (4, "authority_failed", false),
        (5, "credential_exhausted", false),
        (6, "credential_probe_busy", false),
        (7, "dns_failed", false),
        (8, "runtime_state_authority_failed", true),
        (9, "no memory", false),
        (10, "authority_failed", false),
        (11, "authority_failed", false),
    ] {
        let mut answers = ready_answers(ConnectorRuntimeKind::BuiltinNative);
        match change {
            0 => answers.sealed = Some(None),
            1 => answers.template = Some(None),
            2 => answers.binding_permit = Some(Err(())),
            3 => answers.binding_permit = Some(Ok(PermitAvailability::Disabled)),
            4 => answers.lease = Some(LeaseOutcome::Failed),
            5 => answers.lease = Some(LeaseOutcome::Exhausted),
            6 => answers.credential_permit = Some(Ok(PermitAvailability::ProbeBusy)),
            7 => answers.looked_up = Some(Some(vec![])),
            8 => answers.permits_are_valid = Some(false),
            9 => answers.body = Some(Err("no memory".to_owned())),
            10 => answers.signed = Some(None),
            _ => {
                answers.lease = Some(LeaseOutcome::Leased(CredentialLease {
                    credential_ref: "credential/other".to_owned(),
                    key_id: "key".to_owned(),
                    generation: 1,
                    transport_override: None,
                }))
            }
        }
        assert_eq!(
            error_of(walk(&answers, &request, "credential/key")),
            (error.to_owned(), marks),
            "{change}"
        );
    }
}

#[test]
fn attempts_without_authentication_lease_nothing() {
    let request = logical();
    let mut answers = ready_answers(ConnectorRuntimeKind::BuiltinNative);
    answers.sealed = Some(Some(sealed(
        ConnectorRuntimeKind::BuiltinNative,
        AuthenticationSemantics::Anonymous,
    )));
    answers.lease = None;
    answers.credential_permit = None;
    answers.signed = None;
    let ready = prepared(walk(&answers, &request, "credential/none/local"));
    assert_eq!(header(&ready.headers, "authorization"), None);
    assert_eq!(
        error_of(walk(&answers, &request, "credential/key")).0,
        "protocol_failed"
    );
}

#[test]
fn bridges_need_an_address_of_their_own() {
    let request = logical();
    let mut answers = ready_answers(ConnectorRuntimeKind::CpaBridge);
    assert_eq!(
        error_of(walk(&answers, &request, "credential/key")).0,
        "authority_failed"
    );
    answers.lease = Some(lease(Some(TransportOverride {
        address: address(),
        address_text: "127.0.0.1:9000".to_owned(),
        request_path: "/v1/messages".to_owned(),
    })));
    assert!(matches!(
        walk(&answers, &request, "credential/key"),
        MaterializationStep::CheckOverride(target)
            if target.scheme == TransportScheme::Http && target.sni.is_none()
    ));
    answers.override_is_valid = Some(true);
    let ready = prepared(walk(&answers, &request, "credential/key"));
    assert_eq!(ready.target.authority, "127.0.0.1:9000");
    assert_eq!(ready.target.addresses, vec![address()]);
    assert_eq!(header(&ready.headers, "host").as_deref(), Some("127.0.0.1:9000"));
    let mut native = ready_answers(ConnectorRuntimeKind::BuiltinNative);
    native.lease = Some(lease(Some(TransportOverride {
        address: address(),
        address_text: "127.0.0.1:9000".to_owned(),
        request_path: "/v1/messages".to_owned(),
    })));
    assert_eq!(
        error_of(walk(&native, &request, "credential/key")).0,
        "authority_failed"
    );
}

#[test]
fn drifted_executions_fail_closed() {
    let request = logical();
    for change in 0..6 {
        let mut drifted = sealed(
            ConnectorRuntimeKind::BuiltinNative,
            AuthenticationSemantics::Required,
        );
        match change {
            0 => drifted.execution.stable_target_key = "other".to_owned(),
            1 => drifted.execution.profile_digest = digest("d"),
            2 => drifted.evidence.target_digest = Some(digest("d")),
            3 => drifted.evidence.target_is_valid = false,
            4 => drifted.execution.operational_target.uri = "https://evil.example/".to_owned(),
            _ => drifted.execution.logical_endpoint = " ".to_owned(),
        }
        let mut answers = ready_answers(ConnectorRuntimeKind::BuiltinNative);
        answers.sealed = Some(Some(drifted));
        assert_eq!(
            error_of(walk(&answers, &request, "credential/key")).0,
            "protocol_failed",
            "{change}"
        );
    }
}

#[test]
fn planned_transports_match_their_operational_targets() {
    let operational = |kind, uri: &str| OperationalTarget {
        kind,
        uri: uri.to_owned(),
        runtime_epoch: None,
        target_epoch: None,
    };
    let local = TransportTarget {
        scheme: TransportScheme::Http,
        authority: "127.0.0.1:9000".to_owned(),
        unresolved_authority: None,
        addresses: vec![address()],
        sni: None,
    };
    let ip = Some(IpBits::V4(0x7f00_0001));
    assert!(operational_target_matches_plan(
        &operational(OperationalTargetKind::ManagedCpaLoopback, "http://127.0.0.1:9000/x"),
        &local,
        ip
    ));
    assert!(!operational_target_matches_plan(
        &operational(OperationalTargetKind::ManagedCpaLoopback, "http://127.0.0.1:9000/x"),
        &local,
        None
    ));
    assert!(!operational_target_matches_plan(
        &operational(OperationalTargetKind::ManagedCpaLoopback, "http://127.0.0.1:9001/x"),
        &local,
        ip
    ));
    assert!(operational_target_matches_plan(
        &operational(OperationalTargetKind::RegisteredHttps, "https://provider.example/v1"),
        &planned(),
        None
    ));
    assert!(!operational_target_matches_plan(
        &operational(OperationalTargetKind::RegisteredHttps, "http://provider.example/v1"),
        &planned(),
        None
    ));
}

#[test]
fn connectors_cannot_set_the_length_of_a_body_or_the_seals() {
    let connector = Some(ConnectorHeaders {
        content_type: "application/json".to_owned(),
        required_headers: vec![
            ("Content-Length".to_owned(), "1".to_owned()),
            ("X-HiRoute-Profile-Digest".to_owned(), "forged".to_owned()),
        ],
    });
    let mut headers = request_headers("provider.example", &connector, 12).unwrap();
    assert_eq!(header(&headers, "host").as_deref(), Some("provider.example"));
    assert_eq!(header(&headers, "content-length").as_deref(), Some("12"));
    seal_headers(&mut headers, "sha256:1", &Some("ledger".to_owned())).unwrap();
    assert_eq!(header(&headers, "x-hiroute-profile-digest").as_deref(), Some("sha256:1"));
    assert_eq!(header(&headers, "x-hiroute-reason-ledger-id").as_deref(), Some("ledger"));
    assert!(seal_headers(&mut headers, "sha256:1", &None).is_err());
    let broken = Some(ConnectorHeaders {
        content_type: "a\nb".to_owned(),
        required_headers: vec![],
    });
    assert_eq!(request_headers("x", &broken, 1).unwrap_err(), "protocol_failed");
    assert_eq!(request_headers("x", &None, 1).unwrap_err(), "protocol_failed");
}

fn state() -> ProductionAttemptState {
    ProductionAttemptState {
        profile: profile(AuthenticationSemantics::Required),
        response_status: None,
        classified_failure: None,
        streaming: false,
        native_output: false,
        chat_tool_projection: false,
        decoder: false,
        renderer: false,
        projector: false,
        prefix: None,
        prefix_terminal_chunks: None,
        decoder_budget: None,
        semantic_seen: false,
        terminal_seen: false,
        semantic_terminal: None,
        retry_after: None,
    }
}

#[test]
fn providers_confirm_what_became_of_an_attempt() {
    let provider = ProductionProvider::new();
    assert_eq!(provider.cooldowns.binding, 15 * SECOND);
    let mut signal = RuntimeStateAuthoritySignal::default();
    let mut attempt = state();
    assert_eq!(
        provider.confirm_precommit(&attempt, permits(), NOW, &mut signal),
        Ok(Confirmation::ConfirmSuccess)
    );
    let told = || Some(ProviderClassificationFacts::default());
    assert!(confirm_attempt_failure(&mut attempt, None, told()).unwrap().error_class.is_none());
    assert!(attempt.classified_failure.is_none());
    let failed = failure(AttemptFailureClass::BindingOverload, FailureStateScope::Binding);
    let facts = confirm_attempt_failure(&mut attempt, Some(failed), told()).unwrap();
    assert_eq!(facts.retryability, RetryabilityFact::Retryable);
    assert!(matches!(
        provider.confirm_precommit(&attempt, permits(), NOW, &mut signal),
        Ok(Confirmation::WriteFailure(Some(_)))
    ));
    let last = AttemptStatePermits { binding: permit(u64::MAX), credential: None };
    assert_eq!(
        provider.confirm_precommit(&attempt, last, NOW, &mut signal),
        Err("runtime_state_authority_failed".to_owned())
    );
    assert!(signal.failed);
}

#[test]
fn targets_are_told_only_where_they_differ() {
    assert!(resolved_transport_target(planned(), &planned()).is_none());
    let mut resolved = planned();
    resolved.unresolved_authority = None;
    resolved.addresses = vec![address()];
    assert_eq!(
        resolved_transport_target(resolved, &planned()).unwrap().addresses,
        vec![address()]
    );
}

#[test]
fn lookups_give_a_plan_its_addresses() {
    let found = finish_lookup(&planned(), Some(&vec![address()])).unwrap();
    assert_eq!(found.addresses, vec![address()]);
    assert!(found.unresolved_authority.is_none());
    assert_eq!(found.sni.as_deref(), Some("provider.example"));
    assert_eq!(finish_lookup(&planned(), Some(&vec![])).unwrap_err(), "dns_failed");
    assert_eq!(finish_lookup(&planned(), None).unwrap_err(), "dns_failed");
}

#[test]
fn leases_name_the_endpoint_of_their_connector() {
    let endpoint = |runtime| {
        let answer = sealed(runtime, AuthenticationSemantics::Required);
        lease_logical_endpoint(&answer.execution, "https://lease.example")
    };
    assert_eq!(endpoint(ConnectorRuntimeKind::BuiltinNative), "https://lease.example");
    assert_eq!(endpoint(ConnectorRuntimeKind::CpaBridge), "https://provider.example/v1");
    let host = |uri: &str| {
        target_host(&OperationalTarget {
            kind: OperationalTargetKind::RegisteredHttps,
            uri: uri.to_owned(),
            runtime_epoch: None,
            target_epoch: None,
        })
    };
    assert_eq!(host("https://[::1]:443/x").as_deref(), Some("::1"));
    assert_eq!(host("https://provider.example/x").as_deref(), Some("provider.example"));
    assert_eq!(host("/only/a/path"), None);
    assert_eq!(host("not a uri"), None);
}

#[test]
fn mechanical_failures_of_unsealed_profiles_fail_closed() {
    let mut profile = profile(AuthenticationSemantics::Required);
    let (raw, errors) =
        mechanical_failure_to_classify(&profile, CoreAttemptFailureClass::Transport, None)
            .unwrap()
            .unwrap();
    assert_eq!(raw, RawAttemptFailure::Disconnect);
    assert!(errors.http_status_typed);
    profile.adapter_revision = String::new();
    assert_eq!(
        mechanical_failure_to_classify(&profile, CoreAttemptFailureClass::Transport, None)
            .unwrap_err(),
        "protocol_failed"
    );
    assert_eq!(
        mechanical_failure_to_classify(&profile, CoreAttemptFailureClass::Dns, None),
        Ok(None)
    );
}

#[test]
fn attempts_begin_with_nothing_seen() {
    let mut budget = StreamBudget::new(16 * 1024 * 1024);
    let account = PrecommitDecoderBudget::new(&mut budget, 1024, 64).unwrap();
    let profile = profile(AuthenticationSemantics::Required);
    let codecs = plan_codecs(&Some(ir()), &profile).unwrap();
    assert!(codecs.streaming && !codecs.native_output && codecs.needs_renderer);
    let state = new_attempt_state(profile, codecs, true, BodyQueue::new(8, 64), account);
    assert!(state.streaming && state.renderer && state.chat_tool_projection);
    assert!(state.response_status.is_none() && state.classified_failure.is_none());
    assert!(!state.semantic_seen && !state.decoder && !state.projector);
}

#[test]
fn owned_permits_are_borrowed_as_they_are() {
    let key = || RuntimeStateKey::Binding { stable_target: "target".to_owned() };
    let both = OwnedAttemptStatePermits::new(key(), permit(3), key(), permit(4));
    assert_eq!(
        both.borrowed(),
        AttemptStatePermits { binding: permit(3), credential: Some(permit(4)) }
    );
    let one = OwnedAttemptStatePermits::without_credential(key(), permit(5));
    assert_eq!(one.borrowed(), AttemptStatePermits { binding: permit(5), credential: None });
}
