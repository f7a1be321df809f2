use hiroute::runtime::facts::{Disposition, IngressProtocol, ProviderClassificationFacts, RetryabilityFact};
use hiroute::runtime::selection::{
    is_complete_accept, retry_after_seconds, AttemptBudgetGrant, AttemptCleanupOutcome,
    AttemptDownstreamOutcome, AttemptFailureFacts, AttemptStreamOutcome, AttemptTerminationReason,
    CompletedAttemptObservation, CoreAttemptFailureClass, DecisionCandidateAuthority,
    DecisionSessionRequest, HoldCompletion, ProductionDecisionSession, ProductionRouteContext,
    ProductionSelection, ResolvedTargetBindingId, SelectedGatewayAttempt, SelectionProgress,
    SelectionRequest,
};

const SECOND: u128 = 1_000_000_000;
const MILLI: u128 = 1_000_000;
const NOW: u128 = 1_000 * SECOND;

fn binding(local_id: u32) -> ResolvedTargetBindingId {
    ResolvedTargetBindingId { plan_revision: 1, local_id }
}

fn candidate(local_id: u32, credential_refs: &[&str]) -> DecisionCandidateAuthority {
    DecisionCandidateAuthority {
        binding: binding(local_id),
        stable_target: format!("binding-{local_id}"),
        credential_refs: credential_refs.iter().map(|value| value.to_string()).collect(),
        candidate_id: None,
        profile_digest: None,
        reason_ledger_identity: None,
        provider_profile: None,
    }
}

fn selection_request(generation: u64, remaining_attempts: u32) -> SelectionRequest {
    SelectionRequest { generation, remaining_total: SECOND, remaining_attempts }
}

fn progress() -> SelectionProgress {
    SelectionProgress {
        candidate_index: 0,
        credential_index: 0,
        temporary_block_seen: false,
        probe_busy_seen: false,
        earliest_retry_at: None,
        non_temporary_block_seen: false,
        upstream_attempted: false,
    }
}

fn session(candidates: Vec<DecisionCandidateAuthority>) -> ProductionDecisionSession {
    ProductionDecisionSession {
        request_id: 1,
        route_decision_id: 1,
        candidates,
        overall_deadline: NOW + 10 * SECOND,
        hold: None,
        switch_fallback: None,
        progress: progress(),
    }
}

fn materialization_failure(error_class: &str, retry_after: Option<u128>) -> AttemptFailureFacts {
    AttemptFailureFacts {
        class: CoreAttemptFailureClass::Materialization,
        provider: Some(ProviderClassificationFacts {
            error_class: Some(error_class.to_owned()),
            retryability: RetryabilityFact::Retryable,
            retry_after,
            readiness: "materialization_failed".to_owned(),
            ..ProviderClassificationFacts::default()
        }),
        request_committed: false,
    }
}

fn select(session: &ProductionDecisionSession, generation: u64, attempts: u32) -> SelectedGatewayAttempt {
    session.select_next(&selection_request(generation, attempts), NOW).unwrap().unwrap()
}

#[test]
fn retryable_quota_advances_exact_credential_before_binding() {
    let mut session = session(vec![
        candidate(1, &["credential-a", "credential-b"]),
        candidate(2, &["credential-c"]),
    ]);
    session.overall_deadline = NOW + SECOND;
    let first = select(&session, 1, 3);
    assert_eq!(first.binding.local_id, 1);
    assert_eq!(first.credential_ref.as_str(), "credential-a");

    let quota = || ProviderClassificationFacts {
        error_class: Some("quota".to_owned()),
        retryability: RetryabilityFact::Retryable,
        readiness: "rejected".to_owned(),
        ..ProviderClassificationFacts::default()
    };
    assert_eq!(session.decide(&first, &quota()).unwrap(), Disposition::Continue);
    let second = select(&session, 2, 2);
    assert_eq!(second.binding.local_id, 1);
    assert_eq!(second.credential_ref.as_str(), "credential-b");

    assert_eq!(session.decide(&second, &quota()).unwrap(), Disposition::Continue);
    let third = select(&session, 3, 1);
    assert_eq!(third.binding.local_id, 2);
    assert_eq!(third.credential_ref.as_str(), "credential-c");
}

#[test]
fn switched_candidate_precommit_400_falls_back_to_previous_once() {
    let mut session = session(vec![candidate(1, &["new-key"]), candidate(2, &["original-key"])]);
    session.switch_fallback = Some(binding(2));
    let mut selected = select(&session, 1, 2);
    selected.attempt_id = 1;
    let rejected = ProviderClassificationFacts {
        error_class: Some("permanent_client".to_owned()),
        retryability: RetryabilityFact::NonRetryable,
        http_status: Some(400),
        ..ProviderClassificationFacts::default()
    };
    assert_eq!(session.decide(&selected, &rejected).unwrap(), Disposition::Continue);
    let original = select(&session, 2, 1);
    assert_eq!(original.binding.local_id, 2);
    assert_eq!(session.decide(&original, &rejected).unwrap(), Disposition::Terminate);
}

#[test]
fn unknown_or_nonretryable_materialization_never_advances_selection() {
    let selected = SelectedGatewayAttempt {
        request_id: 1,
        attempt_id: 0,
        generation: 1,
        binding: binding(1),
        credential_ref: "credential".to_owned(),
        route_decision_id: 1,
        budget: AttemptBudgetGrant {
            issued_at: NOW,
            allocated: SECOND,
            deadline: NOW + SECOND,
        },
    };
    let mut session = session(vec![]);
    session.overall_deadline = NOW + SECOND;
    for retryability in [RetryabilityFact::Unknown, RetryabilityFact::NonRetryable] {
        let failure = AttemptFailureFacts {
            class: CoreAttemptFailureClass::Materialization,
            provider: Some(ProviderClassificationFacts {
                retryability,
                readiness: "materialization_failed".to_owned(),
                ..ProviderClassificationFacts::default()
            }),
            request_committed: false,
        };
        assert_eq!(
            session.decide_failure(&selected, &failure, NOW).unwrap(),
            Disposition::Terminate
        );
        assert_eq!(session.progress.candidate_index, 0);
        assert_eq!(session.progress.credential_index, 0);
    }
}

#[test]
fn switched_provisional_nonretryable_failure_does_not_call_previous_model() {
    let mut session = session(vec![candidate(1, &["new-key"]), candidate(2, &["original-key"])]);
    session.switch_fallback = Some(binding(2));
    let selected = select(&session, 1, 2);
    assert_eq!(selected.attempt_id, 0);

    let mut failure = materialization_failure("materialization_fail_closed", None);
    failure.provider.as_mut().unwrap().retryability = RetryabilityFact::NonRetryable;
    assert_eq!(
        session.decide_failure(&selected, &failure, NOW).unwrap(),
        Disposition::Terminate
    );
    assert_eq!(session.progress.candidate_index, 0);
}

#[test]
fn switched_promoted_preexchange_failure_does_not_call_previous_model() {
    let mut session = session(vec![candidate(1, &["new-key"]), candidate(2, &["original-key"])]);
    session.switch_fallback = Some(binding(2));
    let mut selected = select(&session, 1, 2);
    selected.attempt_id = 1;

    let mut failure = materialization_failure("preexchange_filter_failure", None);
    failure.provider.as_mut().unwrap().retryability = RetryabilityFact::NonRetryable;
    assert!(!failure.request_committed);
    assert_eq!(
        session.decide_failure(&selected, &failure, NOW).unwrap(),
        Disposition::Terminate
    );
    assert_eq!(session.progress.candidate_index, 0);
}

#[test]
fn pure_runtime_state_exhaustion_returns_retryable_503_and_probe_busy_wins() {
    let mut session = session(vec![
        candidate(1, &["credential-a"]),
        candidate(2, &["credential-b"]),
    ]);
    let first = select(&session, 1, 3);
    assert_eq!(
        session
            .decide_failure(
                &first,
                &materialization_failure("runtime_state_cooling_down", Some(1_500 * MILLI)),
                NOW,
            )
            .unwrap(),
        Disposition::Continue
    );
    let second = select(&session, 1, 3);
    assert_eq!(
        session
            .decide_failure(
                &second,
                &materialization_failure("runtime_state_probe_busy", Some(SECOND)),
                NOW,
            )
            .unwrap(),
        Disposition::Continue
    );
    assert!(session.select_next(&selection_request(1, 3), NOW).unwrap().is_none());
    let reply = session
        .exhaustion_local_reply(NOW)
        .expect("pure temporary exhaustion has a retry response");
    assert_eq!(reply.status, 503);
    assert_eq!(reply.retry_after.as_deref(), Some("1"));
    assert_eq!(reply.content_type, "application/json");
    let body: serde_json::Value = serde_json::from_str(&reply.body).unwrap();
    assert_eq!(body["schema_version"], "hiroute.gateway.error/v1");
    assert_eq!(body["code"], "RECOVERY_PROBE_IN_PROGRESS");
    assert_eq!(body["phase"], "runtime_state");
    assert_eq!(body["retry_after_seconds"], 1);
    assert_eq!(body.as_object().unwrap().len(), 4);
}

#[test]
fn cooling_exhaustion_uses_earliest_deadline_and_rounds_up() {
    assert_eq!(retry_after_seconds(1), 1);
    assert_eq!(retry_after_seconds(1_000_000_001), 2);

    let mut session = session(vec![
        candidate(1, &["credential-a"]),
        candidate(2, &["credential-b"]),
    ]);
    let first = select(&session, 1, 3);
    assert_eq!(
        session
            .decide_failure(
                &first,
                &materialization_failure("runtime_state_cooling_down", Some(12 * SECOND)),
                NOW,
            )
            .unwrap(),
        Disposition::Continue
    );
    let second = select(&session, 1, 3);
    assert_eq!(
        session
            .decide_failure(
                &second,
                &materialization_failure("runtime_state_cooling_down", Some(3_200 * MILLI)),
                NOW,
            )
            .unwrap(),
        Disposition::Continue
    );
    assert!(session.select_next(&selection_request(1, 3), NOW).unwrap().is_none());
    let reply = session
        .exhaustion_local_reply(NOW)
        .expect("pure cooldown exhaustion has a retry response");
    assert_eq!(reply.retry_after.as_deref(), Some("4"));
    let body: serde_json::Value = serde_json::from_str(&reply.body).unwrap();
    assert_eq!(body["schema_version"], "hiroute.gateway.error/v1");
    assert_eq!(body["code"], "CANDIDATES_COOLING_DOWN");
    assert_eq!(body["phase"], "runtime_state");
    assert_eq!(body["retry_after_seconds"], 4);
    assert_eq!(body.as_object().unwrap().len(), 4);
}

#[test]
fn mixed_runtime_state_exhaustion_keeps_generic_failure() {
    let mut session = session(vec![
        candidate(1, &["credential-a"]),
        candidate(2, &["credential-b"]),
    ]);
    let first = select(&session, 1, 3);
    session
        .decide_failure(
            &first,
            &materialization_failure("runtime_state_cooling_down", Some(2 * SECOND)),
            NOW,
        )
        .unwrap();
    let second = select(&session, 1, 3);
    assert_eq!(
        session
            .decide_failure(&second, &materialization_failure("runtime_state_disabled", None), NOW)
            .unwrap(),
        Disposition::Terminate
    );
    assert!(session.exhaustion_local_reply(NOW).is_none());
}

fn accepted() -> CompletedAttemptObservation {
    CompletedAttemptObservation {
        route_decision_id: 1,
        binding: binding(1),
        provider: Some(ProviderClassificationFacts {
            model_event: Some("response_complete".to_owned()),
            ..ProviderClassificationFacts::default()
        }),
        failure: None,
        disposition: Disposition::Accept,
        stream: AttemptStreamOutcome::CompletedEos,
        downstream: AttemptDownstreamOutcome::Completed,
        cleanup: AttemptCleanupOutcome::Completed,
        termination_reason: AttemptTerminationReason::AcceptedEos,
    }
}

#[test]
fn hold_success_requires_full_accepted_eos_downstream_and_cleanup() {
    assert!(is_complete_accept(&accepted()));
    let mut interrupted = accepted();
    interrupted.stream = AttemptStreamOutcome::StreamStartedNoRetry;
    assert!(!is_complete_accept(&interrupted));
    let mut downstream_failed = accepted();
    downstream_failed.downstream = AttemptDownstreamOutcome::Failed;
    assert!(!is_complete_accept(&downstream_failed));
    let mut cleanup_failed = accepted();
    cleanup_failed.cleanup = AttemptCleanupOutcome::Failed;
    assert!(!is_complete_accept(&cleanup_failed));
    let mut incomplete = accepted();
    incomplete.provider.as_mut().unwrap().model_event = Some("response_incomplete".to_owned());
    assert!(!is_complete_accept(&incomplete));
    let mut failed = accepted();
    failed.provider.as_mut().unwrap().model_event = Some("response_failed".to_owned());
    assert!(!is_complete_accept(&failed));
    let mut missing_terminal = accepted();
    missing_terminal.provider.as_mut().unwrap().model_event = None;
    assert!(!is_complete_accept(&missing_terminal));
    let mut terminated = accepted();
    terminated.disposition = Disposition::Terminate;
    assert!(!is_complete_accept(&terminated));
}

#[test]
fn completed_holds_store_the_preference_of_the_serving_binding() {
    let mut session = session(vec![candidate(1, &["credential-a"])]);
    assert_eq!(session.observe_completed(&accepted()), None);
    session.hold = Some(HoldCompletion {
        ticket: 7,
        preferences: vec![(binding(2), 20), (binding(1), 10), (binding(1), 11)],
    });
    assert_eq!(session.observe_completed(&accepted()), Some((7, 10)));
    let mut other = accepted();
    other.route_decision_id = 2;
    assert_eq!(session.observe_completed(&other), None);
    let mut failed = accepted();
    failed.cleanup = AttemptCleanupOutcome::Failed;
    assert_eq!(session.observe_completed(&failed), None);
}

fn request(
    bindings: Vec<ResolvedTargetBindingId>,
    switch_fallback: Option<ResolvedTargetBindingId>,
) -> DecisionSessionRequest {
    DecisionSessionRequest {
        request_id: 9,
        candidate_bindings: bindings,
        overall_deadline: NOW + SECOND,
        route_context: ProductionRouteContext {
            ingress: IngressProtocol::Messages,
            hold_completion: None,
            switch_fallback,
        },
    }
}

#[test]
fn sessions_need_the_authorized_candidates_in_their_order() {
    let policy = ProductionSelection;
    assert_eq!(
        policy.begin_session(request(vec![binding(1)], None)).unwrap_err(),
        "production selection requires an authorized candidate closure"
    );
    let opened = policy
        .begin_authorized_session(
            request(vec![binding(1), binding(2)], Some(binding(2))),
            vec![candidate(1, &["a"]), candidate(2, &["b"])],
        )
        .unwrap();
    assert_eq!(opened.request_id, 9);
    assert_eq!(opened.route_decision_id, 9);
    assert_eq!(opened.progress, progress());
    for (bindings, candidates) in [
        (vec![], vec![]),
        (vec![binding(1)], vec![candidate(2, &["a"])]),
        (vec![binding(1), binding(2)], vec![candidate(1, &["a"])]),
    ] {
        assert_eq!(
            policy.begin_authorized_session(request(bindings, None), candidates).unwrap_err(),
            "authorized candidate order is inconsistent"
        );
    }
    for fallback in [binding(1), binding(3)] {
        assert_eq!(
            policy
                .begin_authorized_session(
                    request(vec![binding(1), binding(2)], Some(fallback)),
                    vec![candidate(1, &["a"]), candidate(2, &["b"])],
                )
                .unwrap_err(),
            "switch fallback is outside the frozen second candidate"
        );
    }
}

#[test]
fn selection_grants_what_is_left_of_the_deadline() {
    let session = session(vec![candidate(1, &["a"])]);
    let selected = session
        .select_next(
            &SelectionRequest { generation: 4, remaining_total: 60 * SECOND, remaining_attempts: 1 },
            NOW + 7 * SECOND,
        )
        .unwrap()
        .unwrap();
    assert_eq!(selected.generation, 4);
    assert_eq!(selected.budget.allocated, 3 * SECOND);
    assert_eq!(selected.budget.deadline, NOW + 10 * SECOND);
    assert!(session
        .select_next(&selection_request(1, 1), NOW + 10 * SECOND)
        .unwrap()
        .is_none());
    assert!(session.select_next(&selection_request(1, 0), NOW).unwrap().is_none());
}

#[test]
fn attempts_outside_the_cursor_are_refused() {
    let mut session = session(vec![candidate(1, &["a"]), candidate(2, &[])]);
    let mut selected = select(&session, 1, 1);
    selected.credential_ref = "b".to_owned();
    assert_eq!(
        session.ensure_selected_matches_cursor(&selected).unwrap_err(),
        "selected credential is outside the current frozen cursor"
    );
    assert!(session.advance_candidate());
    assert_eq!(
        session.select_next(&selection_request(1, 1), NOW).unwrap_err(),
        "candidate has no authorized credential reference"
    );
    assert!(!session.advance_credential());
    assert_eq!(
        session.ensure_selected_matches_cursor(&selected).unwrap_err(),
        "selected candidate is outside the frozen closure"
    );
    assert_eq!(session.replace_blocked_accept(), Disposition::Terminate);
}

#[test]
fn committed_failures_fall_back_at_most_once() {
    let mut session = session(vec![candidate(1, &["new-key"]), candidate(2, &["original-key"])]);
    session.switch_fallback = Some(binding(2));
    let mut selected = select(&session, 1, 2);
    selected.attempt_id = 1;
    let mut failure = materialization_failure("permanent_client", None);
    failure.provider.as_mut().unwrap().retryability = RetryabilityFact::NonRetryable;
    failure.request_committed = true;
    assert!(session.can_switch_fallback(&selected));
    assert_eq!(
        session.decide_failure(&selected, &failure, NOW).unwrap(),
        Disposition::Continue
    );
    let mut original = select(&session, 2, 1);
    original.attempt_id = 2;
    assert!(!session.can_switch_fallback(&original));
    assert_eq!(
        session.decide_failure(&original, &failure, NOW).unwrap(),
        Disposition::Terminate
    );
}

#[test]
fn credential_failures_try_the_next_credential_first() {
    let mut session = session(vec![candidate(1, &["a", "b"]), candidate(2, &["c"])]);
    let selected = select(&session, 1, 3);
    let mut failure = materialization_failure("credential", None);
    failure.class = CoreAttemptFailureClass::Credential;
    assert_eq!(
        session.decide_failure(&selected, &failure, NOW).unwrap(),
        Disposition::Continue
    );
    assert_eq!(session.progress.candidate_index, 0);
    assert_eq!(session.progress.credential_index, 1);
}

#[test]
fn successful_responses_are_accepted() {
    let mut session = session(vec![candidate(1, &["a"])]);
    let mut selected = select(&session, 1, 1);
    selected.attempt_id = 3;
    let facts = ProviderClassificationFacts {
        retryability: RetryabilityFact::NonRetryable,
        ..ProviderClassificationFacts::default()
    };
    assert_eq!(session.decide(&selected, &facts).unwrap(), Disposition::Accept);
    assert!(session.progress.upstream_attempted);
}

#[test]
fn advice_forgets_nothing_whatever_the_order() {
    let cooling = || materialization_failure("runtime_state_cooling_down", Some(2 * SECOND));
    let probing = || materialization_failure("runtime_state_probe_busy", None);
    let other = || materialization_failure("transport", None);
    let code = |failures: Vec<AttemptFailureFacts>, attempt_id: u64| {
        let mut session = session(vec![
            candidate(1, &["credential-a"]),
            candidate(2, &["credential-b"]),
            candidate(3, &["credential-c"]),
        ]);
        for failure in &failures {
            let mut selected = select(&session, 1, 4);
            selected.attempt_id = attempt_id;
            session.decide_failure(&selected, failure, NOW).unwrap();
        }
        session.exhaustion_local_reply(NOW).map(|reply| {
            let body: serde_json::Value = serde_json::from_str(&reply.body).unwrap();
            (body["code"].as_str().unwrap().to_owned(), reply.retry_after.unwrap())
        })
    };
    assert_eq!(code(vec![], 0), None);
    assert_eq!(
        code(vec![cooling(), cooling(), cooling()], 0),
        Some(("CANDIDATES_COOLING_DOWN".to_owned(), "2".to_owned()))
    );
    assert_eq!(
        code(vec![probing(), cooling(), cooling()], 0),
        Some(("RECOVERY_PROBE_IN_PROGRESS".to_owned(), "1".to_owned()))
    );
    assert_eq!(code(vec![other(), cooling(), probing()], 0), None);
    assert_eq!(code(vec![cooling(), probing(), other()], 0), None);
    assert_eq!(code(vec![cooling()], 7), None);
}
