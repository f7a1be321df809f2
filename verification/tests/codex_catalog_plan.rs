use hiroute::agents::codex_catalog::{CodexCatalogError, CodexCatalogSelection, CodexDefaultPolicy};
use hiroute::agents::codex_catalog_plan::{
    codex_plan_capability_preview, codex_private_worker_catalog, plan_entry, requirements,
    CapabilityVerdict, CatalogPlan, CodexCandidateCapabilityLimitKindV1,
    CodexCapabilityIssueKindV1, CodexCatalogMetadataSourceV1, CodexClientCapabilityPreviewV1,
    CodexFixedCapabilityLimitV1, CodexInputModalityV1, ExecutableProfileFacts, PlanCandidate,
    ResponsesProfileFacts,
};
use hiroute::agents::codex_catalog_source::{
    draft_codex_catalog_plan, sample_codex_catalog_plan, sample_codex_hiroute_only_catalog_plan,
    CodexConfiguredCatalog,
};
use hiroute::agents::codex_layers::{sample_codex_configuration, CodexConfigurationScope};
use hiroute::agents::filesystem::AgentFilesystemScanError;
use hiroute::digest::CanonicalDigest;
use hiroute::json::{parse_json, to_bytes, Json};
use hiroute::runtime::facts::IngressProtocol;

const PROMPT: &str = "generic instructions";
const ALIAS: &str = "hiroute/0123456789abcdef";

fn json(value: &serde_json::Value) -> Json {
    parse_json(&serde_json::to_vec(value).unwrap()).unwrap()
}

fn value(json: &Json) -> serde_json::Value {
    serde_json::from_slice(&to_bytes(json)).unwrap()
}

fn names() -> Vec<String> {
    let mut names: Vec<String> = (0..8).map(|i| format!("native-{i}")).collect();
    names.push(ALIAS.to_owned());
    names
}

fn profile() -> ResponsesProfileFacts {
    ResponsesProfileFacts {
        executable: Some(ExecutableProfileFacts {
            upstream_protocol: IngressProtocol::Responses,
            text: CapabilityVerdict::Supported,
            image: CapabilityVerdict::Supported,
        }),
        max_input_tokens: Some(200_000),
        max_output_tokens: Some(16_000),
        max_total_tokens: Some(Some(232_000)),
        reasoning_reservation_tokens: Some(0),
    }
}

fn candidate(binding_id: &str) -> PlanCandidate {
    PlanCandidate { binding_id: binding_id.to_owned(), profile: Some(profile()) }
}

fn plan() -> CatalogPlan {
    CatalogPlan {
        alias: ALIAS.to_owned(),
        display_name: "Plan".to_owned(),
        purpose: "For everything".to_owned(),
        is_valid: true,
        context_window_tokens: None,
        candidates: vec![candidate("binding-a"), candidate("binding-b")],
    }
}

fn raw() -> serde_json::Value {
    let models: Vec<String> = (0..8)
        .map(|i| format!("{{\"slug\":\"native-{i}\",\"display_name\":\"N{i}\",\"priority\":{i},\"visibility\":\"list\",\"supported_in_api\":true,\"supports_parallel_tool_calls\":true}}"))
        .collect();
    serde_json::from_str(&format!("{{\"models\":[{}],\"opaque\":[null]}}", models.join(","))).unwrap()
}

fn selection(raw: &serde_json::Value) -> CodexCatalogSelection {
    CodexCatalogSelection::parse(json(raw), &names()).unwrap()
}

fn policy() -> CodexDefaultPolicy<'static> {
    CodexDefaultPolicy {
        explicit_model: None,
        uses_codex_backend: true,
        allow_provider_model_fallback: false,
    }
}

/// Appends plans to a catalog and accepts what comes out.
fn append(
    source: &CodexCatalogSelection,
    plans: Vec<CatalogPlan>,
    policy: CodexDefaultPolicy<'_>,
    origin: CodexCatalogMetadataSourceV1,
    retained: Option<&Vec<String>>,
) -> Result<serde_json::Value, CodexCatalogError> {
    let updated = source.append_plans(true, &plans, origin, retained, &names(), PROMPT)?;
    source.accept_plans(&updated, true, policy, &names()).map(|json| value(&json))
}

fn appended(plan: CatalogPlan) -> Result<serde_json::Value, CodexCatalogError> {
    append(
        &selection(&raw()),
        vec![plan],
        policy(),
        CodexCatalogMetadataSourceV1::UserConfigured,
        None,
    )
}

fn issue(plan: &CatalogPlan) -> (CodexCapabilityIssueKindV1, Option<String>) {
    match codex_plan_capability_preview(plan) {
        CodexClientCapabilityPreviewV1::Unavailable { mut issues } => {
            assert_eq!(issues.len(), 1);
            let issue = issues.pop().unwrap();
            (issue.kind, issue.binding_id)
        }
        other => panic!("{other:?}"),
    }
}

fn facts(plan: &mut CatalogPlan, index: usize) -> &mut ResponsesProfileFacts {
    plan.candidates[index].profile.as_mut().unwrap()
}

fn parsed(text: &str) -> serde_json::Value {
    serde_json::from_str(text).unwrap()
}

fn scope() -> CodexConfigurationScope {
    CodexConfigurationScope::user_file("/home/me/.codex/config.toml".to_owned())
}

fn only(
    scope: &CodexConfigurationScope,
    content: Option<&str>,
    model: &str,
) -> Result<hiroute::agents::codex_catalog_source::CodexCatalogPlan, CodexCatalogError> {
    let read = Ok(content.map(|text| text.as_bytes().to_vec()));
    let observed = sample_codex_configuration(scope, &vec![read]).unwrap();
    sample_codex_hiroute_only_catalog_plan(
        scope,
        &vec![plan()],
        model,
        PROMPT,
        &names(),
        true,
        Some(&observed),
    )
}

#[test]
fn hiroute_only_catalog_uses_published_plan_without_native_cache() {
    let first = only(&scope(), None, ALIAS).unwrap();
    let second = only(&scope(), None, ALIAS).unwrap();
    assert_eq!(first.producer.metadata_source, CodexCatalogMetadataSourceV1::HirouteGenerated);
    assert_eq!(first.producer.path, "/home/me/.codex/config.toml");
    assert_eq!(first.content_digest.as_str(), second.content_digest.as_str());
    assert_eq!(
        first.producer.dependency_digest.as_str(),
        second.producer.dependency_digest.as_str()
    );
    let catalog = value(first.selection.original());
    assert_eq!(catalog["models"].as_array().unwrap().len(), 1);
    assert_eq!(catalog["models"][0]["slug"], ALIAS);
    assert!(matches!(
        only(&scope(), None, "different-default"),
        Err(CodexCatalogError::MissingDefault)
    ));
}

#[test]
fn private_worker_catalog_uses_the_same_plan_entry_as_the_user_target_merge() {
    let bytes = codex_private_worker_catalog(&plan(), PROMPT, &names(), true).unwrap();
    let private: serde_json::Value = serde_json::from_slice(&bytes).unwrap();
    let merged = appended(plan()).unwrap();
    assert_eq!(private["models"].as_array().unwrap().len(), 1);
    assert_eq!(private["models"][0]["slug"], ALIAS);
    assert_eq!(private["models"][0]["supports_parallel_tool_calls"], false);
    let mut private_entry = private["models"][0].clone();
    let mut merged_entry = merged["models"].as_array().unwrap().last().unwrap().clone();
    private_entry.as_object_mut().unwrap().remove("priority");
    merged_entry.as_object_mut().unwrap().remove("priority");
    assert_eq!(private_entry, merged_entry);
    CodexCatalogSelection::for_current_adapter(json(&private), &names(), true).unwrap();
    assert_eq!(
        codex_private_worker_catalog(&plan(), PROMPT, &names(), false).unwrap_err(),
        CodexCatalogError::InvalidCatalog
    );
}

#[test]
fn exact_original_entries_remain_unchanged_when_plan_is_appended() {
    let source = selection(&raw());
    let merged = appended(plan()).unwrap();
    let original = raw();
    let before = original["models"].as_array().unwrap();
    let after = merged["models"].as_array().unwrap();
    assert_eq!(before.len(), 8);
    assert_eq!(&after[..before.len()], &before[..]);
    assert_eq!(after.len(), 9);
    assert_eq!(merged["opaque"], parsed("[null]"));
    let entry = &after[8];
    assert_eq!(entry["slug"], ALIAS);
    assert_eq!(entry["shell_type"], "shell_command");
    assert_eq!(entry["model_messages"]["instructions_template"], PROMPT);
    assert_eq!(entry["truncation_policy"], parsed("{\"mode\":\"bytes\",\"limit\":10000}"));
    assert_eq!(entry["context_window"], entry["max_context_window"]);
    assert!(entry["context_window"].as_i64().unwrap() > 0);
    assert!(
        entry["priority"].as_i64().unwrap()
            > before.iter().map(|entry| entry["priority"].as_i64().unwrap()).max().unwrap()
    );
    for key in [
        "used_fallback_model_metadata",
        "base_instructions",
        "max_output",
        "available_in_plans",
        "minimal_client_version",
    ] {
        assert!(entry.get(key).is_none(), "must not fabricate {key}");
    }
    source.require_preserved_default(&selection(&merged), policy(), &names()).unwrap();
}

#[test]
fn managed_catalog_exposes_only_authorized_names_from_full_metadata() {
    let source = selection(&raw());
    let original = raw();
    let before = original["models"].as_array().unwrap();
    let retained_name = before[1]["slug"].as_str().unwrap().to_owned();
    let retained = vec![retained_name.clone()];
    let merged = append(
        &source,
        vec![plan()],
        CodexDefaultPolicy { explicit_model: Some(ALIAS), ..policy() },
        CodexCatalogMetadataSourceV1::TargetCache,
        Some(&retained),
    )
    .unwrap();
    let models = merged["models"].as_array().unwrap();
    assert_eq!(models.len(), 2);
    assert_eq!(models[0]["slug"], retained_name.as_str());
    assert_eq!(models[1]["slug"], ALIAS);
    assert_eq!(value(source.original()), original);
    let fixed_only = append(
        &source,
        vec![],
        CodexDefaultPolicy { explicit_model: Some(&retained_name), ..policy() },
        CodexCatalogMetadataSourceV1::UserConfigured,
        Some(&retained),
    )
    .unwrap();
    assert_eq!(fixed_only["models"].as_array().unwrap().len(), 1);
    assert_eq!(fixed_only["models"][0], before[1]);
}

#[test]
fn target_cache_missing_parallel_flag_defaults_true_without_mutating_source() {
    let mut raw = raw();
    raw["models"][0].as_object_mut().unwrap().remove("supports_parallel_tool_calls");
    raw["models"][0]["future_native_field"] = parsed("{\"preserve\":[null,1]}");
    raw["models"][1]["supports_parallel_tool_calls"] = parsed("false");
    let source = selection(&raw);
    let merged = append(
        &source,
        vec![plan()],
        policy(),
        CodexCatalogMetadataSourceV1::TargetCache,
        None,
    )
    .unwrap();
    let before = raw["models"].as_array().unwrap();
    let after = merged["models"].as_array().unwrap();
    assert_eq!(value(source.original()), raw);
    assert_eq!(after.len(), before.len() + 1);
    for (before, after) in before.iter().zip(after) {
        let mut expected = before.clone();
        if expected.get("supports_parallel_tool_calls").is_none() {
            expected["supports_parallel_tool_calls"] = parsed("true");
        }
        assert_eq!(after, &expected);
    }
    assert_eq!(after[0]["supports_parallel_tool_calls"], true);
    assert_eq!(after[0]["future_native_field"], parsed("{\"preserve\":[null,1]}"));
    assert_eq!(after[1]["supports_parallel_tool_calls"], false);
    assert_eq!(after.last().unwrap()["supports_parallel_tool_calls"], false);
}

#[test]
fn user_configured_catalog_does_not_infer_missing_parallel_flag() {
    let mut raw = raw();
    raw["models"][0].as_object_mut().unwrap().remove("supports_parallel_tool_calls");
    let merged = append(
        &selection(&raw),
        vec![plan()],
        policy(),
        CodexCatalogMetadataSourceV1::UserConfigured,
        None,
    )
    .unwrap();
    let before = raw["models"].as_array().unwrap();
    let after = merged["models"].as_array().unwrap();
    assert_eq!(&after[..before.len()], &before[..]);
    assert!(after[0].get("supports_parallel_tool_calls").is_none());
    assert_eq!(after.last().unwrap()["supports_parallel_tool_calls"], false);
}

#[test]
fn plan_catalog_does_not_offer_effort_override_or_mutate_mixed_candidates() {
    let mut plan = plan();
    facts(&mut plan, 1).reasoning_reservation_tokens = Some(8_000);
    let entry = value(&plan_entry(&plan, 99, PROMPT).unwrap());
    assert!(entry["default_reasoning_level"].is_null());
    assert_eq!(entry["supported_reasoning_levels"], parsed("[]"));
    assert!(entry["description"].as_str().unwrap().contains("推理强度由计划配置决定"));
    assert_eq!(plan.candidates.len(), 2);
}

#[test]
fn missing_function_tools_rejects_plan_without_pruning_candidates() {
    let mut plan = plan();
    facts(&mut plan, 1).executable.as_mut().unwrap().text = CapabilityVerdict::Unsupported;
    assert_eq!(
        issue(&plan),
        (CodexCapabilityIssueKindV1::RequestCapabilities, Some("binding-b".to_owned()))
    );
    assert_eq!(appended(plan).unwrap_err(), CodexCatalogError::CapabilityUnproven);
    let asked = requirements(true);
    assert!(asked.function_tools && asked.streaming && asked.mid_conversation_instructions);
    assert_eq!(asked.image_media_types.len(), 4);
    assert!(requirements(false).image_media_types.is_empty());
}

#[test]
fn codex_catalog_rejects_missing_instruction_roles_even_when_tools_and_stream_are_exact() {
    let mut plan = plan();
    facts(&mut plan, 0).executable.as_mut().unwrap().text =
        CapabilityVerdict::InstructionsUnsupported;
    assert_eq!(
        issue(&plan),
        (CodexCapabilityIssueKindV1::InstructionRoles, Some("binding-a".to_owned()))
    );
    assert_eq!(appended(plan).unwrap_err(), CodexCatalogError::CapabilityUnproven);
}

#[test]
fn messages_candidate_cannot_enter_codex_catalog_beside_a_native_responses_candidate() {
    let mut plan = plan();
    let executable = facts(&mut plan, 0).executable.as_mut().unwrap();
    executable.upstream_protocol = IngressProtocol::Messages;
    executable.text = CapabilityVerdict::InstructionsUnsupported;
    assert_eq!(plan.candidates.len(), 2);
    assert_eq!(
        issue(&plan),
        (CodexCapabilityIssueKindV1::InstructionRoles, Some("binding-a".to_owned()))
    );
    assert_eq!(appended(plan).unwrap_err(), CodexCatalogError::CapabilityUnproven);
}

#[test]
fn messages_only_candidate_does_not_claim_codex_responses_capability() {
    let mut plan = plan();
    plan.candidates[0].profile = None;
    assert_eq!(
        issue(&plan),
        (CodexCapabilityIssueKindV1::ResponsesProtocol, Some("binding-a".to_owned()))
    );
}

#[test]
fn unknown_context_rejects_plan_instead_of_copying_fallback_limits() {
    let mut plan = plan();
    facts(&mut plan, 0).max_input_tokens = None;
    assert_eq!(
        issue(&plan),
        (CodexCapabilityIssueKindV1::ContextInput, Some("binding-a".to_owned()))
    );
    assert_eq!(appended(plan).unwrap_err(), CodexCatalogError::CapabilityUnproven);
}

#[test]
fn each_missing_fact_of_a_candidate_is_named() {
    let with = |change: fn(&mut ResponsesProfileFacts)| {
        let mut plan = plan();
        change(facts(&mut plan, 1));
        let (kind, binding) = issue(&plan);
        assert_eq!(binding.as_deref(), Some("binding-b"));
        kind
    };
    assert_eq!(
        with(|facts| facts.executable = None),
        CodexCapabilityIssueKindV1::RequestCapabilities
    );
    assert_eq!(
        with(|facts| facts.max_output_tokens = None),
        CodexCapabilityIssueKindV1::ContextOutput
    );
    assert_eq!(
        with(|facts| facts.max_total_tokens = None),
        CodexCapabilityIssueKindV1::ContextTotal
    );
    assert_eq!(
        with(|facts| facts.reasoning_reservation_tokens = None),
        CodexCapabilityIssueKindV1::ReasoningProfile
    );
    assert_eq!(
        with(|facts| facts.max_total_tokens = Some(Some(16_000))),
        CodexCapabilityIssueKindV1::ContextWindow
    );
    assert_eq!(
        with(|facts| facts.reasoning_reservation_tokens = Some(u64::MAX)),
        CodexCapabilityIssueKindV1::ContextWindow
    );
    let mut invalid = plan();
    invalid.is_valid = false;
    assert_eq!(issue(&invalid), (CodexCapabilityIssueKindV1::InvalidCompiledPlan, None));
}

#[test]
fn context_and_modalities_use_all_candidates_common_capabilities() {
    let mut plan = plan();
    facts(&mut plan, 1).max_input_tokens = Some(64000);
    facts(&mut plan, 1).executable.as_mut().unwrap().image = CapabilityVerdict::Unsupported;
    let (context_window, input_modalities, limitations, fixed_limits) =
        match codex_plan_capability_preview(&plan) {
            CodexClientCapabilityPreviewV1::Available {
                context_window,
                input_modalities,
                limitations,
                fixed_limits,
                ..
            } => (context_window, input_modalities, limitations, fixed_limits),
            other => panic!("{other:?}"),
        };
    assert_eq!(context_window, 64000);
    assert_eq!(input_modalities, vec![CodexInputModalityV1::Text]);
    assert_eq!(limitations.len(), 2);
    assert!(limitations.iter().all(|limit| limit.binding_ids == ["binding-b".to_owned()]));
    assert_eq!(
        limitations.iter().map(|limit| limit.kind).collect::<Vec<_>>(),
        vec![
            CodexCandidateCapabilityLimitKindV1::ContextWindow,
            CodexCandidateCapabilityLimitKindV1::ImageInput,
        ]
    );
    assert_eq!(fixed_limits, vec![CodexFixedCapabilityLimitV1::ParallelToolCallsDisabled]);
    let entry = value(&plan_entry(&plan, 99, PROMPT).unwrap());
    assert_eq!(entry["context_window"], 64000);
    assert_eq!(entry["input_modalities"], parsed("[\"text\"]"));
}

#[test]
fn alias_collision_does_not_replace_an_original_entry() {
    let mut raw = raw();
    raw["models"][0]["slug"] = serde_json::Value::from(ALIAS);
    let source = selection(&raw);
    assert_eq!(
        append(
            &source,
            vec![plan()],
            policy(),
            CodexCatalogMetadataSourceV1::UserConfigured,
            None
        )
        .unwrap_err(),
        CodexCatalogError::InvalidCatalog
    );
    assert_eq!(value(source.original()), raw);
}

#[test]
fn plan_append_rejects_implicit_default_change_for_all_hidden_catalog() {
    let mut raw = raw();
    for entry in raw["models"].as_array_mut().unwrap() {
        entry["visibility"] = serde_json::Value::from("hide");
    }
    assert_eq!(
        append(
            &selection(&raw),
            vec![plan()],
            policy(),
            CodexCatalogMetadataSourceV1::UserConfigured,
            None
        )
        .unwrap_err(),
        CodexCatalogError::DefaultChanged
    );
}

#[test]
fn catalogs_without_the_structural_contract_get_no_plans() {
    let source = selection(&raw());
    assert_eq!(
        source
            .append_plans(
                false,
                &vec![],
                CodexCatalogMetadataSourceV1::UserConfigured,
                None,
                &names(),
                PROMPT
            )
            .unwrap_err(),
        CodexCatalogError::InvalidCatalog
    );
    let mut last = raw();
    last["models"][0]["priority"] = serde_json::Value::from(i32::MAX);
    assert_eq!(
        append(
            &selection(&last),
            vec![plan()],
            policy(),
            CodexCatalogMetadataSourceV1::UserConfigured,
            None
        )
        .unwrap_err(),
        CodexCatalogError::PriorityExhausted
    );
}

#[test]
fn context_window_default_custom_and_worker_catalog_agree() {
    let large = || {
        let mut plan = plan();
        for index in 0..2 {
            let facts = facts(&mut plan, index);
            facts.max_input_tokens = Some(1_050_000);
            facts.max_output_tokens = Some(128_000);
            facts.max_total_tokens = Some(Some(1_178_000));
        }
        plan
    };
    for (setting, expected) in [
        (None, 272_000u64),
        (Some(128_000), 128_000),
        (Some(500_000), 500_000),
        (Some(1_050_000), 1_050_000),
    ] {
        let mut selected = large();
        selected.context_window_tokens = setting;
        let entry = value(&plan_entry(&selected, 0, PROMPT).unwrap());
        assert_eq!(entry["context_window"], expected);
        assert_eq!(entry["max_context_window"], expected);
        let bytes = codex_private_worker_catalog(&selected, PROMPT, &names(), true).unwrap();
        let worker: serde_json::Value = serde_json::from_slice(&bytes).unwrap();
        assert_eq!(worker["models"][0], entry);
        assert!(matches!(
            codex_plan_capability_preview(&selected),
            CodexClientCapabilityPreviewV1::Available { context_window, .. }
                if context_window == expected
        ));
    }
}

#[test]
fn context_window_overrides_block_plan_catalog_without_editing_user_files() {
    for key in ["model_context_window", "model_auto_compact_token_limit"] {
        let content = format!("{key} = 900000\n");
        assert!(matches!(
            only(&scope(), Some(&content), ALIAS),
            Err(CodexCatalogError::ContextOverride)
        ));
        let mut overridden = scope();
        overridden.cli_overrides.push(format!("{key}=900000"));
        assert!(matches!(
            only(&overridden, Some(""), ALIAS),
            Err(CodexCatalogError::ContextOverride)
        ));
    }
    assert!(only(&scope(), Some(""), ALIAS).is_ok());
}

#[test]
fn drafts_become_plans_where_the_default_stays() {
    let catalog = || CodexConfiguredCatalog {
        metadata_source: CodexCatalogMetadataSourceV1::UserConfigured,
        path: "/catalog.json".to_owned(),
        original: json(&raw()),
        content_digest: CanonicalDigest::of_bytes(b"content"),
        context_digest: CanonicalDigest::of_bytes(b"context"),
        dependency_digest: CanonicalDigest::of_bytes(b"dependency"),
    };
    let draft = || {
        draft_codex_catalog_plan(Ok(catalog()), true, &vec![plan()], None, &names(), PROMPT)
            .unwrap()
    };
    let finished = sample_codex_catalog_plan(draft(), true, policy(), &names()).unwrap();
    assert_eq!(finished.producer.path, "/catalog.json");
    assert_eq!(
        finished.content_digest.as_str(),
        CanonicalDigest::of_bytes(&to_bytes(finished.selection.original())).as_str()
    );
    assert_eq!(value(finished.selection.original())["models"][8]["priority"], 8);
    assert_eq!(
        sample_codex_catalog_plan(draft(), false, policy(), &names()).unwrap_err(),
        CodexCatalogError::InvalidCatalog
    );
    assert_eq!(
        draft_codex_catalog_plan(
            Err(AgentFilesystemScanError::Io),
            true,
            &vec![plan()],
            None,
            &names(),
            PROMPT
        )
        .unwrap_err(),
        CodexCatalogError::CapabilityUnproven
    );
}

#[test]
fn append_rejects_selection_only_projection_even_without_new_plans() {
    let raw = parsed("{\"models\":[{\"slug\":\"native-0\",\"priority\":0,\"visibility\":\"list\",\"supported_in_api\":true}]}");
    let source = selection(&raw);
    assert_eq!(
        source
            .append_plans(
                false,
                &vec![],
                CodexCatalogMetadataSourceV1::UserConfigured,
                None,
                &names(),
                PROMPT
            )
            .unwrap_err(),
        CodexCatalogError::InvalidCatalog
    );
}

#[test]
fn appended_plans_change_no_name_priority_or_default() {
    let source = selection(&raw());
    let mut second = plan();
    second.alias = "native-other".to_owned();
    let plans = vec![plan(), second];
    let mut all = names();
    all.push("native-other".to_owned());
    for origin in [
        CodexCatalogMetadataSourceV1::UserConfigured,
        CodexCatalogMetadataSourceV1::TargetCache,
    ] {
        let updated = source.append_plans(true, &plans, origin, None, &all, PROMPT).unwrap();
        let merged = value(updated.original());
        let facts: Vec<(String, i64)> = merged["models"]
            .as_array()
            .unwrap()
            .iter()
            .map(|entry| {
                (entry["slug"].as_str().unwrap().to_owned(), entry["priority"].as_i64().unwrap())
            })
            .collect();
        let mut expected: Vec<(String, i64)> =
            (0..8).map(|i| (format!("native-{i}"), i)).collect();
        expected.push((ALIAS.to_owned(), 8));
        expected.push(("native-other".to_owned(), 9));
        assert_eq!(facts, expected);
        source.require_preserved_default(&updated, policy(), &all).unwrap();
    }
}
