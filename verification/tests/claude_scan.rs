use std::collections::BTreeMap;

use hiroute::agents::claude_files::FileFacts;
use hiroute::agents::claude_main::{
    main_claude_observation_with_format, resolve_project_local_fields,
};
use hiroute::agents::claude_observation::{
    claude_context_override, claude_explicit_model_selection, claude_native_routing_conflict,
    claude_user_config_document, same_layer_secret_conflict, select_effective, SettingsField,
};
use hiroute::agents::claude_scan::{
    accept_credential, available_model_surfaces, claude_installation_for_applied_user_change,
    codex_config_path, codex_engine_target, finish_claude_scan, is_claude_user_credential,
    locate_credential, start_claude_scan, AgentFilesystemLayoutV1, AgentModelSurfaceV2,
    ClaudeScanStep, RegisteredModel, RegistryAnswer,
};
use hiroute::agents::claude_settings::{
    explicit_environment_name, observe_file, observe_process, read_process_auth_field,
    recover_pre_context_process_digest, resolve_explicit_environment_reference, settings_form,
    variable_is_text, ClaudeSource, ObservedClaudeSettings, SettingsDocument, SettingsForm,
    SettingsMember, SettingsRead,
};
use hiroute::agents::discovery::{
    AgentCapability, AgentDiscoveryOutcomeV1, AgentKindV1, AgentProfileFacts,
    AgentReportOnlyReasonV1, CapabilityReason, CapabilityState, ConfigLayerV1,
    ConfigObservationV1,
};
use hiroute::agents::executable::{ExecutableObservationV1, ProbeFailure};
use hiroute::agents::filesystem::{
    outcome_agent_id, probe_report, registered_model_candidates, scan_codex, scan_results,
    valid_observed_model, AgentFilesystemScanError, DiscoveredCredentialRefV1,
    FilesystemAgentDiscoveryV1,
};
use hiroute::agents::managed_launch::{
    AGENT_AUTH_PRECEDENCE_CONFLICT_V1, MANAGED_LAUNCH_ENV_SANITIZED_V1,
};
use hiroute::digest::CanonicalDigest;
use hiroute::json::{to_bytes, Json};
use serde::de::{IgnoredAny, MapAccess, Visitor};
use serde::{Deserialize, Deserializer};

const PROJECT: &str = "/root/project/settings.json";
const USER: &str = "/root/home/settings.json";
const GLM: &str = "https://open.bigmodel.cn/api/anthropic";
const QWEN: &str = "https://coding.dashscope.aliyuncs.com/apps/anthropic";

fn agent() -> String {
    AgentKindV1::ClaudeCode.command_text()
}

fn texts(list: &[&str]) -> Vec<String> {
    list.iter().map(|text| text.to_string()).collect()
}

fn conflicts() -> Vec<String> {
    texts(&[
        "CLAUDE_CODE_AUTO_COMPACT_WINDOW",
        "CLAUDE_CODE_MAX_CONTEXT_TOKENS",
        "DISABLE_COMPACT",
    ])
}

fn removals() -> Vec<String> {
    texts(&[
        "ANTHROPIC_API_KEY",
        "ANTHROPIC_AUTH_TOKEN",
        "ANTHROPIC_BASE_URL",
        "ANTHROPIC_CUSTOM_HEADERS",
        "ANTHROPIC_MODEL",
        "CLAUDE_CODE_USE_BEDROCK",
        "CLAUDE_CODE_USE_FOUNDRY",
        "CLAUDE_CODE_USE_VERTEX",
    ])
}

fn profiles() -> Vec<AgentProfileFacts> {
    vec![AgentProfileFacts {
        is_valid: true,
        owned_paths: texts(&[
            "env.ANTHROPIC_BASE_URL",
            "env.ANTHROPIC_MODEL",
            "env.ANTHROPIC_DEFAULT_OPUS_MODEL",
            "env.ANTHROPIC_DEFAULT_SONNET_MODEL",
            "env.ANTHROPIC_DEFAULT_HAIKU_MODEL",
            "env.ANTHROPIC_SMALL_FAST_MODEL",
            "apiKeyHelper",
            "hiroute.auth_environment",
        ]),
    }]
}

fn layout() -> AgentFilesystemLayoutV1 {
    AgentFilesystemLayoutV1 {
        codex_executable: "/root/bin/codex".to_owned(),
        codex_desktop_executable: None,
        claude_executable: "/root/bin/agent".to_owned(),
        codex_user_config: "/root/home/config.toml".to_owned(),
        claude_launch_settings: None,
        claude_project_settings: vec![PROJECT.to_owned()],
        claude_user_settings: USER.to_owned(),
        claude_managed_settings: vec![],
        process_environment: vec![],
        process_environment_presence: vec![],
    }
}

fn with_process_value(
    mut layout: AgentFilesystemLayoutV1,
    name: &str,
    value: &str,
) -> AgentFilesystemLayoutV1 {
    let mut map: BTreeMap<String, String> = layout.process_environment.drain(..).collect();
    map.insert(name.to_owned(), value.to_owned());
    layout.process_environment = map.into_iter().collect();
    layout.process_environment_presence.push(name.to_owned());
    layout.process_environment_presence.sort();
    layout.process_environment_presence.dedup();
    layout
}

fn facts(len: usize) -> FileFacts {
    FileFacts {
        is_symlink: false,
        is_file: true,
        dev: 1,
        ino: 2,
        uid: 1000,
        gid: 1000,
        nlink: 1,
        len: len as u64,
        mode: 0o100600,
        mtime: 5,
        mtime_nsec: 6,
        ctime: 7,
        ctime_nsec: 8,
    }
}

type Files = BTreeMap<String, String>;

fn files(list: &[(&str, String)]) -> Files {
    list.iter().map(|(path, text)| (path.to_string(), text.clone())).collect()
}

fn env(pairs: &[(&str, &str)]) -> String {
    let body: Vec<String> =
        pairs.iter().map(|(name, value)| format!("\"{name}\":\"{value}\"")).collect();
    format!("{{\"env\":{{{}}}}}", body.join(","))
}

struct Walked(SettingsDocument);

struct Variables(Vec<(String, Option<String>)>);

struct Walk;

struct VariablesWalk;

impl<'de> Deserialize<'de> for Walked {
    fn deserialize<D: Deserializer<'de>>(deserializer: D) -> Result<Self, D::Error> {
        deserializer.deserialize_map(Walk)
    }
}

impl<'de> Deserialize<'de> for Variables {
    fn deserialize<D: Deserializer<'de>>(deserializer: D) -> Result<Self, D::Error> {
        deserializer.deserialize_map(VariablesWalk)
    }
}

impl<'de> Visitor<'de> for Walk {
    type Value = Walked;

    fn expecting(&self, formatter: &mut std::fmt::Formatter<'_>) -> std::fmt::Result {
        formatter.write_str("settings")
    }

    fn visit_map<A: MapAccess<'de>>(self, mut map: A) -> Result<Walked, A::Error> {
        let mut members = Vec::new();
        while let Some(key) = map.next_key::<String>()? {
            let member = match settings_form(&key) {
                SettingsForm::Text => SettingsMember::Text(map.next_value()?),
                SettingsForm::Variables => {
                    SettingsMember::Variables(map.next_value::<Variables>()?.0)
                }
                SettingsForm::Skipped => {
                    map.next_value::<IgnoredAny>()?;
                    SettingsMember::Skipped
                }
            };
            members.push((key, member));
        }
        Ok(Walked(SettingsDocument { members }))
    }
}

impl<'de> Visitor<'de> for VariablesWalk {
    type Value = Variables;

    fn expecting(&self, formatter: &mut std::fmt::Formatter<'_>) -> std::fmt::Result {
        formatter.write_str("variables")
    }

    fn visit_map<A: MapAccess<'de>>(self, mut map: A) -> Result<Variables, A::Error> {
        let mut variables = Vec::new();
        while let Some(key) = map.next_key::<String>()? {
            let text = if variable_is_text(&key, &conflicts()) {
                Some(map.next_value()?)
            } else {
                map.next_value::<IgnoredAny>()?;
                None
            };
            variables.push((key, text));
        }
        Ok(Variables(variables))
    }
}

fn document(text: &str) -> Option<SettingsDocument> {
    serde_json::from_slice::<Walked>(text.as_bytes()).ok().map(|walked| walked.0)
}

fn observe(
    layout: &AgentFilesystemLayoutV1,
    files: &Files,
) -> Result<Vec<ObservedClaudeSettings>, AgentFilesystemScanError> {
    layout
        .claude_sources()
        .iter()
        .map(|source| match source {
            ClaudeSource::Process => Ok(observe_process(
                &layout.process_environment,
                &layout.process_environment_presence,
                &conflicts(),
            )),
            ClaudeSource::File(layer, path) => observe_file(
                *layer,
                path,
                &Ok(files.get(path).map(|text| SettingsRead {
                    bytes: text.clone().into_bytes(),
                    file: facts(text.len()),
                    document: document(text),
                })),
                &conflicts(),
            ),
        })
        .collect()
}

fn registry(endpoint: &str, candidates: &[String]) -> RegistryAnswer {
    let (option, model) = match endpoint {
        GLM => ("zhipu.coding-plan.cn.v1", "glm-5.3"),
        QWEN => ("dashscope.coding-plan.cn.v1", "qwen3-coder-plus"),
        _ => return RegistryAnswer::NoEndpoint,
    };
    if !candidates.iter().any(|candidate| candidate == model) {
        return RegistryAnswer::NoModel;
    }
    RegistryAnswer::Found(RegisteredModel {
        connection_option_id: option.to_owned(),
        endpoint_profile_id: "endpoint".to_owned(),
        endpoint_profile_revision: 3,
        model_configuration_id: Some("model.zhipu.glm-5.3".to_owned()),
        base_url: endpoint.to_owned(),
        resolved_upstream_model_id: Some(model.to_owned()),
    })
}

fn run(
    layout: &AgentFilesystemLayoutV1,
    files: &Files,
    version: &str,
    for_settings: bool,
) -> FilesystemAgentDiscoveryV1 {
    let executable = ExecutableObservationV1 {
        version: version.to_owned(),
        canonical_path: layout.claude_executable.clone(),
    };
    let removals = removals();
    let step = start_claude_scan(
        Some(&executable),
        None,
        for_settings,
        observe(layout, files),
        &layout.claude_project_settings,
        &profiles(),
        Some(&removals),
    );
    match step {
        ClaudeScanStep::Done(found) => found,
        ClaudeScanStep::Ask { endpoint, candidates, pending } => {
            finish_claude_scan(pending, registry(&endpoint, &candidates))
        }
    }
}

fn scan(layout: &AgentFilesystemLayoutV1, files: &Files) -> FilesystemAgentDiscoveryV1 {
    run(layout, files, "2.1.231", false)
}

fn effective(found: &FilesystemAgentDiscoveryV1, path: &str) -> (ConfigLayerV1, String) {
    match &found.outcome {
        AgentDiscoveryOutcomeV1::Supported { effective_config, .. } => {
            let setting = effective_config.iter().find(|item| item.path == path).unwrap();
            (setting.layer, String::from_utf8(to_bytes(&setting.value)).unwrap())
        }
        other => panic!("{other:?}"),
    }
}

fn digest(found: &FilesystemAgentDiscoveryV1) -> String {
    match &found.outcome {
        AgentDiscoveryOutcomeV1::Supported { observation_digest, .. } => {
            observation_digest.as_str().to_owned()
        }
        AgentDiscoveryOutcomeV1::ReportOnly { observation_digest, .. } => {
            observation_digest.as_str().to_owned()
        }
    }
}

fn is_supported(found: &FilesystemAgentDiscoveryV1) -> bool {
    matches!(found.outcome, AgentDiscoveryOutcomeV1::Supported { .. })
}

fn reason(found: &FilesystemAgentDiscoveryV1) -> AgentReportOnlyReasonV1 {
    match &found.outcome {
        AgentDiscoveryOutcomeV1::ReportOnly { reason, .. } => *reason,
        other => panic!("{other:?}"),
    }
}

fn hint(found: &FilesystemAgentDiscoveryV1, name: &str) -> Option<String> {
    found
        .claude_configuration
        .as_ref()
        .unwrap()
        .provider_model_alias_hints
        .iter()
        .find(|(key, _)| key == name)
        .map(|(_, value)| value.clone())
}

fn glm_user() -> Files {
    files(&[(
        USER,
        env(&[
            ("ANTHROPIC_BASE_URL", GLM),
            ("ANTHROPIC_MODEL", &format!("{}-opus-5", agent())),
            ("ANTHROPIC_DEFAULT_OPUS_MODEL", "glm-5.3[1m]"),
            ("ANTHROPIC_AUTH_TOKEN", "secret-do-not-serialize"),
        ]),
    )])
}

#[test]
fn filesystem_scanner_exact_versions_registers_claude_and_never_serializes_token() {
    let layout = layout();
    let codex = scan_codex(&Ok(Some("/root/bin/codex".to_owned())), Ok(vec![]), &profiles());
    let results = scan_results(codex, scan(&layout, &glm_user()));
    assert_eq!(results.len(), 2);
    let found = results
        .iter()
        .find(|result| outcome_agent_id(&result.outcome) == "agent_claude_default")
        .unwrap();
    assert_eq!(
        found.claude_configuration.as_ref().unwrap().connection_option_id,
        "zhipu.coding-plan.cn.v1"
    );
    assert_eq!(hint(found, "default_opus_model").as_deref(), Some("glm-5.3[1m]"));
    let encoded = format!("{results:?}");
    assert!(!encoded.contains("secret-do-not-serialize"));
    assert!(!encoded.contains("/root/home"));
    let descriptor = found.discovered_credential.as_ref().unwrap();
    let (at, name) = locate_credential(descriptor, &layout.claude_sources()).unwrap();
    assert_eq!(name, "ANTHROPIC_AUTH_TOKEN");
    assert!(matches!(&layout.claude_sources()[at], ClaudeSource::File(ConfigLayerV1::User, _)));
    assert!(is_claude_user_credential(&layout, descriptor));
}

#[test]
fn filesystem_scanner_resolves_registered_provider_model_from_claude_alias_hint() {
    let found = scan(&layout(), &glm_user());
    let configuration = found.claude_configuration.as_ref().unwrap();
    assert_eq!(configuration.connection_option_id, "zhipu.coding-plan.cn.v1");
    assert_eq!(
        configuration.model_configuration_id.as_deref(),
        Some("model.zhipu.glm-5.3")
    );
    assert_eq!(configuration.observed_model_id, "glm-5.3");
    assert_eq!(hint(&found, "configured_model"), Some(format!("{}-opus-5", agent())));
}

#[test]
fn claude_precedence_uses_process_then_launch_project_user_managed() {
    let mut layout = layout();
    let files = files(&[(
        PROJECT,
        env(&[
            ("ANTHROPIC_BASE_URL", GLM),
            ("ANTHROPIC_MODEL", "glm-5.3"),
            ("ANTHROPIC_AUTH_TOKEN", "project"),
        ]),
    )]);
    for (name, value) in [
        ("ANTHROPIC_BASE_URL", GLM),
        ("ANTHROPIC_MODEL", "glm-5.3"),
        ("ANTHROPIC_AUTH_TOKEN", "process"),
    ] {
        layout = with_process_value(layout, name, value);
    }
    let found = scan(&layout, &files);
    let descriptor = found.discovered_credential.unwrap();
    assert_eq!(
        descriptor.discovered_source_ref,
        format!("{}/process-environment", agent())
    );
    let (at, name) = locate_credential(&descriptor, &layout.claude_sources()).unwrap();
    assert_eq!(at, 0);
    let (token, revision) = read_process_auth_field(
        &name,
        &layout.process_environment,
        &layout.process_environment_presence,
        &conflicts(),
        None,
    )
    .unwrap();
    accept_credential(&descriptor, revision).unwrap();
    assert_eq!(token, "process");
}

#[test]
fn codex_version_is_not_probed_and_unregistered_endpoint_stays_report_only() {
    let codex = scan_codex(&Ok(Some("/root/bin/codex".to_owned())), Ok(vec![]), &profiles());
    assert!(matches!(
        &codex.outcome,
        AgentDiscoveryOutcomeV1::Supported { version, .. } if version == "not-probed"
    ));
    let files = files(&[(
        USER,
        env(&[
            ("ANTHROPIC_BASE_URL", "https://attacker.invalid"),
            ("ANTHROPIC_MODEL", "qwen3-coder-plus"),
            ("ANTHROPIC_AUTH_TOKEN", "secret"),
        ]),
    )]);
    assert_eq!(
        reason(&scan(&layout(), &files)),
        AgentReportOnlyReasonV1::UnregisteredEndpoint
    );
}

#[test]
fn claude_endpoint_requires_the_exact_registered_sdk_messages_url() {
    for near_miss in [
        "https://coding.dashscope.aliyuncs.com",
        "https://coding.dashscope.aliyuncs.com/",
        "https://coding.dashscope.aliyuncs.com/apps/anthropic/",
        "https://coding.dashscope.aliyuncs.com/apps/anthropic/v1",
    ] {
        let files = files(&[(
            USER,
            env(&[
                ("ANTHROPIC_BASE_URL", near_miss),
                ("ANTHROPIC_MODEL", "qwen3-coder-plus"),
                ("ANTHROPIC_AUTH_TOKEN", "secret"),
            ]),
        )]);
        let found = scan(&layout(), &files);
        assert_eq!(
            reason(&found),
            AgentReportOnlyReasonV1::UnregisteredEndpoint,
            "accepted endpoint near miss {near_miss}"
        );
        assert!(found.discovered_credential.is_none());
    }
}

#[test]
fn process_discovery_reference_is_presence_bound_and_secret_is_read_only_on_demand() {
    let mut first = layout();
    for (name, value) in [
        ("ANTHROPIC_BASE_URL", GLM),
        ("ANTHROPIC_MODEL", "glm-5.3"),
        ("ANTHROPIC_AUTH_TOKEN", "first-secret"),
    ] {
        first = with_process_value(first, name, value);
    }
    let descriptor = scan(&first, &files(&[])).discovered_credential.unwrap();
    let changed = with_process_value(first, "ANTHROPIC_AUTH_TOKEN", "second-secret");
    let (_, name) = locate_credential(&descriptor, &changed.claude_sources()).unwrap();
    let (token, revision) = read_process_auth_field(
        &name,
        &changed.process_environment,
        &changed.process_environment_presence,
        &conflicts(),
        None,
    )
    .unwrap();
    accept_credential(&descriptor, revision).unwrap();
    assert_eq!(token, "second-secret");
}

fn sanitized() {
    let mut layout = layout();
    for (name, value) in [
        ("ANTHROPIC_BASE_URL", GLM),
        ("ANTHROPIC_MODEL", "glm-5.3"),
        ("ANTHROPIC_AUTH_TOKEN", "process-secret"),
        ("CLAUDE_CODE_USE_BEDROCK", "1"),
    ] {
        layout = with_process_value(layout, name, value);
    }
    let found = scan(&layout, &files(&[]));
    assert!(is_supported(&found));
    assert!(found.claude_configuration.is_some());
    assert!(found.discovered_credential.is_some());
    let preflight = found.managed_launch.as_ref().unwrap();
    assert!(preflight.is_launchable());
    assert_eq!(preflight.warnings.len(), 1);
    assert_eq!(preflight.warnings[0].code, MANAGED_LAUNCH_ENV_SANITIZED_V1);
    assert_eq!(
        preflight.inherited_environment_removals,
        texts(&[
            "ANTHROPIC_AUTH_TOKEN",
            "ANTHROPIC_BASE_URL",
            "ANTHROPIC_MODEL",
            "CLAUDE_CODE_USE_BEDROCK",
        ])
    );
    assert!(!format!("{found:?}").contains("process-secret"));
}

#[test]
fn managed_2_1_231_sanitizes_inherited_env_and_keeps_compute_discovery() {
    sanitized();
}

#[test]
fn managed_launch_sanitizes_inherited_env_and_keeps_compute_discovery() {
    sanitized();
}

fn isolated_user() {
    let text = format!(
        "{{\"apiKeyHelper\":\"do-not-run --secret\",\"env\":{{\"ANTHROPIC_BASE_URL\":\"{GLM}\",\"ANTHROPIC_MODEL\":\"{}-opus-5\",\"ANTHROPIC_DEFAULT_OPUS_MODEL\":\"glm-5.3[1m]\",\"ANTHROPIC_AUTH_TOKEN\":\"user-secret\"}}}}",
        agent()
    );
    let found = scan(&layout(), &files(&[(USER, text)]));
    assert!(found.claude_configuration.is_some());
    assert!(found.discovered_credential.is_some());
    let preflight = found.managed_launch.as_ref().unwrap();
    assert!(preflight.is_launchable());
    assert!(preflight.conflicts.is_empty());
    let encoded = format!("{found:?}");
    assert!(!encoded.contains("user-secret"));
    assert!(!encoded.contains("do-not-run"));
}

#[test]
fn managed_2_1_231_isolates_user_settings_and_keeps_compute_discovery() {
    isolated_user();
}

#[test]
fn managed_launch_isolates_user_settings_and_keeps_compute_discovery() {
    isolated_user();
}

fn blocked() {
    let mut layout = layout();
    layout.claude_launch_settings = Some("/root/launch/settings.json".to_owned());
    layout.claude_managed_settings = vec!["/root/managed/settings.json".to_owned()];
    let files = files(&[
        ("/root/launch/settings.json", "{\"apiKeyHelper\":\"must-not-run\"}".to_owned()),
        (PROJECT, env(&[("ANTHROPIC_BASE_URL", "https://attacker.invalid")])),
        (USER, env(&[("ANTHROPIC_MODEL", "untrusted-model")])),
        ("/root/managed/settings.json", env(&[("CLAUDE_CODE_USE_VERTEX", "1")])),
    ]);
    let found = scan(&layout, &files);
    let preflight = found.managed_launch.unwrap();
    let layers: Vec<ConfigLayerV1> =
        preflight.conflicts.iter().map(|conflict| conflict.layer).collect();
    assert_eq!(layers, vec![ConfigLayerV1::Launch, ConfigLayerV1::Managed]);
    assert!(preflight
        .conflicts
        .iter()
        .all(|conflict| conflict.code == AGENT_AUTH_PRECEDENCE_CONFLICT_V1));
    assert!(!preflight.is_launchable());
    assert!(!format!("{preflight:?}").contains("must-not-run"));
}

#[test]
fn managed_2_1_231_blocks_auth_routing_fields_from_every_nonprocess_layer() {
    blocked();
}

#[test]
fn managed_launch_blocks_auth_routing_fields_from_every_nonprocess_layer() {
    blocked();
}

fn isolated_projects() {
    let mut layout = layout();
    let second = "/root/project-2/settings.json";
    layout.claude_project_settings.push(second.to_owned());
    let settings = |endpoint: &str, token: &str| {
        env(&[
            ("ANTHROPIC_BASE_URL", endpoint),
            ("ANTHROPIC_MODEL", "glm-5.3"),
            ("ANTHROPIC_AUTH_TOKEN", token),
        ])
    };
    let files = files(&[
        (PROJECT, settings(GLM, "first-secret")),
        (second, settings("https://attacker.invalid", "second-secret")),
    ]);
    let found = scan(&layout, &files);
    assert!(is_supported(&found));
    assert!(found.claude_configuration.is_none());
    assert!(found.discovered_credential.is_none());
    let preflight = found.managed_launch.unwrap();
    assert!(preflight.is_launchable());
    assert!(preflight.conflicts.is_empty());
    let encoded = format!("{preflight:?}");
    assert!(!encoded.contains("first-secret"));
    assert!(!encoded.contains("second-secret"));
}

#[test]
fn managed_2_1_231_isolates_multiple_project_settings() {
    isolated_projects();
}

#[test]
fn managed_launch_isolates_multiple_project_settings() {
    isolated_projects();
}

#[test]
fn managed_launch_accepts_old_new_and_unparseable_versions() {
    for version in ["2.1.220", "0.0.1", "2.1.231", "99.1.2", "", "unparseable version"] {
        let found = run(&layout(), &files(&[]), version, false);
        assert!(is_supported(&found), "unexpected support state for {version}");
        assert!(found.managed_launch.is_some(), "{version}");
    }
}

#[test]
fn main_claude_project_layer_and_managed_launch_are_version_independent() {
    for version in ["2.1.231", "9.9.999"] {
        let files = files(&[
            (USER, env(&[("ANTHROPIC_MODEL", "user-model")])),
            (PROJECT, env(&[("ANTHROPIC_MODEL", "project-model")])),
        ]);
        let found = run(&layout(), &files, version, false);
        assert_eq!(
            effective(&found, "env.ANTHROPIC_MODEL"),
            (ConfigLayerV1::Project, "\"project-model\"".to_owned())
        );
        assert!(found.managed_launch.is_some());
    }
}

#[test]
fn claude_local_settings_override_each_field_and_source_reread_binds_shadowed_layers() {
    for reverse in [false, true] {
        let mut layout = layout();
        let local = "/root/project/settings.local.json";
        layout.claude_project_settings.push(local.to_owned());
        if reverse {
            layout.claude_project_settings.reverse();
        }
        let project = |model: &str, token: &str| {
            env(&[
                ("ANTHROPIC_BASE_URL", GLM),
                ("ANTHROPIC_MODEL", model),
                ("ANTHROPIC_AUTH_TOKEN", token),
            ])
        };
        let own = env(&[("ANTHROPIC_MODEL", "glm-5.3"), ("ANTHROPIC_AUTH_TOKEN", "local-secret")]);
        let first = files(&[
            (PROJECT, project("project-model", "project-secret")),
            (local, own.clone()),
        ]);
        let found = scan(&layout, &first);
        assert_eq!(effective(&found, "env.ANTHROPIC_MODEL").1, "\"glm-5.3\"");
        let descriptor = found.discovered_credential.as_ref().unwrap();
        let (at, _) = locate_credential(descriptor, &layout.claude_sources()).unwrap();
        assert!(matches!(
            &layout.claude_sources()[at],
            ClaudeSource::File(ConfigLayerV1::Project, path) if path == local
        ));
        // Even a changed shadowed value changes the identity; it may become active later.
        let second = files(&[
            (PROJECT, project("changed-shadowed-model", "changed-shadowed-secret")),
            (local, own),
        ]);
        let after = scan(&layout, &second);
        assert!(is_supported(&after));
        assert_ne!(digest(&found), digest(&after));
    }
}

#[test]
fn conflicting_same_layer_tokens_block_main_configuration_without_hiding_installation() {
    let mut layout = layout();
    let second = "/root/project-2/settings.json";
    layout.claude_project_settings.push(second.to_owned());
    let settings = |token: &str| {
        env(&[
            ("ANTHROPIC_BASE_URL", QWEN),
            ("ANTHROPIC_MODEL", "qwen3-coder-plus"),
            ("ANTHROPIC_AUTH_TOKEN", token),
        ])
    };
    let files =
        files(&[(PROJECT, settings("first-secret")), (second, settings("second-secret"))]);
    assert!(same_layer_secret_conflict(&observe(&layout, &files).unwrap()));
    let found = scan(&layout, &files);
    match &found.outcome {
        AgentDiscoveryOutcomeV1::Supported { effective_config, capability_evidence, .. } => {
            assert!(effective_config.is_empty());
            assert!(capability_evidence.iter().any(|proof| {
                proof.capability == AgentCapability::EffectiveConfiguration
                    && proof.reason == Some(CapabilityReason::HigherPrecedenceConflict)
            }));
            assert_eq!(capability_evidence.len(), 1);
            assert_eq!(capability_evidence[0].state, CapabilityState::Unknown);
            assert_eq!(capability_evidence[0].observed_at_unix_ms, 1);
            assert_eq!(
                capability_evidence[0].adapter_contract,
                format!("hiroute.{}-native-layers/v1", agent())
            );
        }
        other => panic!("physical installation remains known: {other:?}"),
    }
    assert_eq!(
        found.configuration_issue,
        Some(AgentReportOnlyReasonV1::ConflictingEffectiveConfig)
    );
    assert!(found.claude_configuration.is_none());
    assert!(found.discovered_credential.is_none());
    let encoded = format!("{found:?}");
    assert!(!encoded.contains("first-secret"));
    assert!(!encoded.contains("second-secret"));
}

#[test]
fn filesystem_scan_keeps_missing_installation_and_other_agent_result() {
    let codex = scan_codex(&Ok(None), Ok(vec![]), &profiles());
    let results = scan_results(codex, scan(&layout(), &files(&[])));
    assert_eq!(results.len(), 2);
    assert!(results.iter().any(|result| matches!(
        &result.outcome,
        AgentDiscoveryOutcomeV1::ReportOnly {
            kind: AgentKindV1::Codex,
            reason: AgentReportOnlyReasonV1::NotFoundInScope,
            ..
        }
    )));
    assert!(results.iter().any(|result| matches!(
        &result.outcome,
        AgentDiscoveryOutcomeV1::Supported { kind: AgentKindV1::ClaudeCode, .. }
    )));
    assert_eq!(outcome_agent_id(&results[0].outcome), "agent_claude_default");
}

#[test]
fn filesystem_claude_managed_source_wins_for_both_values_and_protected_reread() {
    let mut layout = with_process_value(layout(), "ANTHROPIC_AUTH_TOKEN", "process-secret");
    let managed = "/root/managed-settings.json";
    layout.claude_managed_settings.push(managed.to_owned());
    let files = files(&[(
        managed,
        env(&[
            ("ANTHROPIC_BASE_URL", GLM),
            ("ANTHROPIC_MODEL", "glm-5.3"),
            ("ANTHROPIC_AUTH_TOKEN", "managed-secret"),
        ]),
    )]);
    let found = scan(&layout, &files);
    assert_eq!(effective(&found, "env.ANTHROPIC_BASE_URL").0, ConfigLayerV1::Managed);
    let descriptor = found.discovered_credential.as_ref().unwrap();
    let (at, _) = locate_credential(descriptor, &layout.claude_sources()).unwrap();
    assert!(matches!(
        &layout.claude_sources()[at],
        ClaudeSource::File(ConfigLayerV1::Managed, path) if path == managed
    ));
    let public = format!("{found:?}");
    assert!(!public.contains("managed-secret"));
    assert!(!public.contains("process-secret"));
}

#[test]
fn claude_settings_discovery_does_not_gate_save_on_version_probe() {
    let files = files(&[(USER, "{}".to_owned())]);
    assert!(is_supported(&run(&layout(), &files, "", false)));
    let settings = run(&layout(), &files, "", true);
    assert!(is_supported(&settings));
    assert!(settings.managed_launch.as_ref().is_some_and(|launch| launch.is_launchable()));
}

#[test]
fn claude_settings_discovery_allows_unregistered_native_endpoint() {
    let files = files(&[(
        USER,
        env(&[
            ("ANTHROPIC_BASE_URL", "https://unknown.example.invalid/anthropic"),
            ("ANTHROPIC_MODEL", "custom-model"),
        ]),
    )]);
    assert_eq!(
        reason(&run(&layout(), &files, "2.1.231", false)),
        AgentReportOnlyReasonV1::UnregisteredEndpoint
    );
    let settings = run(&layout(), &files, "2.1.231", true);
    assert!(is_supported(&settings));
    assert_eq!(
        settings.configuration_issue,
        Some(AgentReportOnlyReasonV1::UnregisteredEndpoint)
    );
}

#[test]
fn ordinary_claude_requires_user_file_to_own_routing_and_auth() {
    let user = (
        USER,
        "{\"apiKeyHelper\":\"untrusted-original --never-run\",\"env\":{\"ANTHROPIC_AUTH_TOKEN\":\"private-token\",\"ANTHROPIC_MODEL\":\"opus\"}}".to_owned(),
    );
    let user_only = files(&[user.clone()]);
    assert!(
        !claude_native_routing_conflict(&observe(&layout(), &user_only).unwrap()),
        "the owned user file can replace its own old auth without executing it"
    );
    let process = with_process_value(layout(), "ANTHROPIC_AUTH_TOKEN", "process-secret");
    assert!(
        claude_native_routing_conflict(&observe(&process, &user_only).unwrap()),
        "a user-file edit cannot remove an inherited process token"
    );
    let project = files(&[user, (PROJECT, env(&[("ANTHROPIC_MODEL", "project-model")]))]);
    assert!(
        claude_native_routing_conflict(&observe(&layout(), &project).unwrap()),
        "a project override must not be reported as a working ordinary connection"
    );
}

#[test]
fn claude_explicit_selection_keeps_top_level_model_distinct_from_presets() {
    let layout = layout();
    let observed = |text: &str| observe(&layout, &files(&[(USER, text.to_owned())])).unwrap();
    let both = observed("{\"model\":\"opus\",\"env\":{\"ANTHROPIC_MODEL\":\"sonnet\",\"ANTHROPIC_DEFAULT_OPUS_MODEL\":\"provider-opus\"}}");
    assert_eq!(claude_explicit_model_selection(&both).as_deref(), Some("sonnet"));
    assert!(
        !claude_user_config_document(&both).unwrap().iter().any(|(path, _)| path == "model"),
        "the native top-level selection is observed but never an owned write field"
    );
    let top = observed("{\"model\":\"opus\",\"env\":{\"ANTHROPIC_DEFAULT_OPUS_MODEL\":\"provider-opus\"}}");
    assert_eq!(claude_explicit_model_selection(&top).as_deref(), Some("opus"));
    let none = observed("{\"env\":{\"ANTHROPIC_DEFAULT_OPUS_MODEL\":\"provider-opus\"}}");
    assert_eq!(claude_explicit_model_selection(&none), None);
    let project = files(&[(PROJECT, "{\"model\":\"project-opus\"}".to_owned())]);
    assert!(claude_native_routing_conflict(&observe(&layout, &project).unwrap()));
}

#[test]
fn context_windows_are_overridden_by_any_other_source() {
    let user = files(&[(
        USER,
        env(&[
            ("CLAUDE_CODE_AUTO_COMPACT_WINDOW", "500000"),
            ("CLAUDE_CODE_MAX_CONTEXT_TOKENS", "900000"),
        ]),
    )]);
    assert!(!claude_context_override(&observe(&layout(), &user).unwrap()));
    for key in conflicts() {
        let process = with_process_value(layout(), &key, "1");
        assert!(claude_context_override(&observe(&process, &user).unwrap()), "{key}");
    }
    let project = files(&[(PROJECT, env(&[("DISABLE_COMPACT", "1")]))]);
    assert!(claude_context_override(&observe(&layout(), &project).unwrap()));
    let own = files(&[(USER, env(&[("DISABLE_COMPACT", "1")]))]);
    assert!(claude_context_override(&observe(&layout(), &own).unwrap()));
}

#[test]
fn claude_version_diagnostics_do_not_change_admission_or_dependency_identity() {
    let layout = layout();
    let files = files(&[]);
    let mut identity: Option<String> = None;
    for label in ["0.0.1", "99.1.2", "", "not a version"] {
        let found = run(&layout, &files, label, false);
        assert!(is_supported(&found), "diagnostic output cannot deny admission");
        assert!(found.managed_launch.as_ref().unwrap().is_launchable());
        if let Some(expected) = &identity {
            assert_eq!(&digest(&found), expected);
        } else {
            identity = Some(digest(&found));
        }
    }
    let observations = observe(&layout, &files).unwrap();
    let legacy = |version: &str| {
        match main_claude_observation_with_format(version, &observations, true, &profiles()).0 {
            AgentDiscoveryOutcomeV1::Supported { observation_digest, .. } => {
                observation_digest.as_str().to_owned()
            }
            other => panic!("{other:?}"),
        }
    };
    assert_eq!(legacy("2.1.231"), legacy("2.1.231"));
    assert_ne!(legacy("2.1.231"), legacy("2.1.232"));
    let mut moved = layout;
    moved.claude_executable = "/root/bin/other".to_owned();
    assert_ne!(Some(digest(&run(&moved, &files, "0.0.1", false))), identity);
}

#[test]
fn legacy_process_digest_matches_the_pre_window_contract_fixture() {
    let mut observation = observe_process(&vec![], &vec![], &conflicts());
    recover_pre_context_process_digest(&mut observation);
    assert_eq!(
        observation.digest.as_str(),
        "sha256:2e119288169c0e9f0d13cc0bf91861599ef9958a275c54dd87fdabe72e5d5d9d"
    );
    let original = observation.digest.as_str().to_owned();
    observation
        .settings
        .env
        .context_environment
        .push(("DISABLE_COMPACT".into(), "1".into()));
    observation.digest = CanonicalDigest::of_bytes(b"current format with context override");
    let current = observation.digest.as_str().to_owned();
    recover_pre_context_process_digest(&mut observation);
    assert_eq!(observation.digest.as_str(), current);
    assert_ne!(observation.digest.as_str(), original);
}

#[test]
fn unreadable_settings_are_reported_without_hiding_the_executable() {
    let executable = ExecutableObservationV1 {
        version: "2.1.231".to_owned(),
        canonical_path: "/root/bin/agent".to_owned(),
    };
    for (error, expected) in [
        (AgentFilesystemScanError::SymlinkConfig, AgentReportOnlyReasonV1::SymlinkConfig),
        (AgentFilesystemScanError::WrongOwner, AgentReportOnlyReasonV1::WrongOwner),
        (
            AgentFilesystemScanError::UnsafePermissions,
            AgentReportOnlyReasonV1::UnsafeConfigPermissions,
        ),
        (AgentFilesystemScanError::Io, AgentReportOnlyReasonV1::ConfigUnavailable),
    ] {
        let step = start_claude_scan(
            Some(&executable),
            None,
            false,
            Err(error),
            &vec![],
            &profiles(),
            None,
        );
        match step {
            ClaudeScanStep::Done(found) => {
                assert_eq!(reason(&found), expected);
                assert_eq!(found.configuration_issue, Some(expected));
            }
            other => panic!("{other:?}"),
        }
    }
    let report = probe_report(
        "agent_claude_default",
        AgentKindV1::ClaudeCode,
        Some(ProbeFailure::NotExecutable),
    );
    let given = digest(&report);
    let step = start_claude_scan(
        None,
        Some(report.outcome),
        false,
        observe(&layout(), &glm_user()),
        &vec![],
        &profiles(),
        None,
    );
    match step {
        ClaudeScanStep::Ask { endpoint, candidates, pending } => {
            let found = finish_claude_scan(pending, registry(&endpoint, &candidates));
            assert_eq!(reason(&found), AgentReportOnlyReasonV1::ExecutableNotRunnable);
            assert_eq!(digest(&found), given);
            assert!(found.claude_configuration.is_some());
        }
        other => panic!("{other:?}"),
    }
}

#[test]
fn models_are_looked_up_without_their_selectors() {
    assert_eq!(
        registered_model_candidates("glm-5.3[1m]", Some("other")),
        texts(&["glm-5.3[1m]", "glm-5.3", "other"])
    );
    assert_eq!(registered_model_candidates("[1m]", None), texts(&["[1m]"]));
    assert_eq!(registered_model_candidates("a[1m", Some("a[1m")), texts(&["a[1m"]));
    assert!(valid_observed_model("a/b.c"));
    for bad in ["", "a..b", "a//b", "a\u{7}"] {
        assert!(!valid_observed_model(bad));
    }
    assert!(!valid_observed_model(&"x".repeat(257)));
    let files = files(&[(
        USER,
        env(&[("ANTHROPIC_BASE_URL", GLM), ("ANTHROPIC_MODEL", "a..b")]),
    )]);
    assert_eq!(
        reason(&scan(&layout(), &files)),
        AgentReportOnlyReasonV1::UnregisteredModel
    );
}

#[test]
fn descriptors_name_exactly_one_source() {
    let layout = layout();
    let descriptor = |revision: u64, selector: &str, reference: String| DiscoveredCredentialRefV1 {
        source: "discovered_config".to_owned(),
        scanner_id: "builtin.agent-filesystem".to_owned(),
        scanner_version: "1".to_owned(),
        discovered_source_ref: reference,
        field_selector: selector.to_owned(),
        observed_revision: revision,
    };
    let known = layout.claude_sources()[0].source_ref();
    let sources = layout.claude_sources();
    assert!(matches!(
        locate_credential(&descriptor(0, "env.ANTHROPIC_API_KEY", known.clone()), &sources),
        Err(AgentFilesystemScanError::InvalidDescriptor)
    ));
    assert!(matches!(
        locate_credential(&descriptor(1, "env.OTHER", known.clone()), &sources),
        Err(AgentFilesystemScanError::InvalidDescriptor)
    ));
    assert!(matches!(
        locate_credential(&descriptor(1, "env.ANTHROPIC_API_KEY", "x".to_owned()), &sources),
        Err(AgentFilesystemScanError::SourceUnavailable)
    ));
    let good = descriptor(1, "env.ANTHROPIC_API_KEY", known);
    assert_eq!(
        locate_credential(&good, &sources).unwrap(),
        (0, "ANTHROPIC_API_KEY".to_owned())
    );
    assert!(matches!(
        accept_credential(&good, 2),
        Err(AgentFilesystemScanError::SourceChanged)
    ));
    assert!(!is_claude_user_credential(&layout, &good));
}

#[test]
fn references_to_variables_are_resolved() {
    assert_eq!(explicit_environment_name("${MY_TOKEN}").as_deref(), Some("MY_TOKEN"));
    assert_eq!(explicit_environment_name("literal"), None);
    let process = vec![("MY_TOKEN".to_owned(), "value".to_owned())];
    assert_eq!(
        resolve_explicit_environment_reference("${MY_TOKEN}".to_owned(), &process, None).unwrap(),
        "value"
    );
    assert_eq!(
        resolve_explicit_environment_reference("literal".to_owned(), &process, None).unwrap(),
        "literal"
    );
    assert!(matches!(
        resolve_explicit_environment_reference("${OTHER}".to_owned(), &process, None),
        Err(AgentFilesystemScanError::SourceUnavailable)
    ));
}

#[test]
fn local_files_hide_only_what_they_set() {
    let mut layout = layout();
    let local = "/root/project/settings.local.json";
    layout.claude_project_settings.push(local.to_owned());
    let text = files(&[
        (
            PROJECT,
            "{\"apiKeyHelper\":\"h\",\"env\":{\"ANTHROPIC_MODEL\":\"m\",\"ANTHROPIC_BASE_URL\":\"u\",\"ANTHROPIC_AUTH_TOKEN\":\"t\"}}".to_owned(),
        ),
        (local, "{\"apiKeyHelper\":\"x\",\"env\":{\"ANTHROPIC_MODEL\":\"n\"}}".to_owned()),
    ]);
    let observations = observe(&layout, &text).unwrap();
    let resolved = resolve_project_local_fields(&layout.claude_project_settings, &observations);
    assert_eq!(resolved.len(), observations.len());
    let project = &resolved[1];
    assert_eq!(project.settings.env.model, None);
    assert_eq!(project.settings.env.base_url.as_deref(), Some("u"));
    assert!(!project.settings.api_key_helper_present);
    assert!(project
        .settings
        .env
        .present_environment_fields
        .contains(&"ANTHROPIC_AUTH_TOKEN".to_owned()));
    let alone = resolve_project_local_fields(&vec![local.to_owned()], &observations);
    assert_eq!(alone[1].settings.env.model.as_deref(), Some("m"));
}

#[test]
fn the_first_source_of_the_lowest_rank_decides() {
    let layout = with_process_value(layout(), "ANTHROPIC_MODEL", "process");
    let files = files(&[(USER, env(&[("ANTHROPIC_MODEL", "user"), ("ANTHROPIC_BASE_URL", "u")]))]);
    let observations = observe(&layout, &files).unwrap();
    assert_eq!(select_effective(&observations, Some(SettingsField::EnvironmentModel)), Some(0));
    assert_eq!(select_effective(&observations, Some(SettingsField::BaseUrl)), Some(2));
    assert_eq!(select_effective(&observations, Some(SettingsField::SelectedModel)), None);
    assert_eq!(select_effective(&observations, None), None);
}

#[test]
fn user_documents_tell_secrets_only_to_be_there() {
    let files = files(&[(
        USER,
        "{\"apiKeyHelper\":\"h\",\"env\":{\"ANTHROPIC_AUTH_TOKEN\":\"t\",\"ANTHROPIC_MODEL\":\"m\"}}".to_owned(),
    )]);
    let document = claude_user_config_document(&observe(&layout(), &files).unwrap()).unwrap();
    let text = |path: &str| {
        let (_, value) = document.iter().find(|(name, _)| name == path).unwrap();
        String::from_utf8(to_bytes(value)).unwrap()
    };
    assert_eq!(document.len(), 3);
    assert_eq!(text("apiKeyHelper"), "{\"configured\":true}");
    assert_eq!(text("hiroute.auth_environment"), "{\"configured\":true}");
    assert_eq!(text("env.ANTHROPIC_MODEL"), "\"m\"");
    assert!(matches!(
        claude_user_config_document(&vec![]),
        Err(AgentFilesystemScanError::InvalidConfig)
    ));
}

#[test]
fn applied_changes_need_an_installation_that_is_there() {
    let layout = layout();
    let observations = observe(&layout, &files(&[])).unwrap();
    let located = || Ok(Some(Some("/root/bin/agent".to_owned())));
    let ask = |applied: bool, located: Result<Option<Option<String>>, ProbeFailure>| {
        claude_installation_for_applied_user_change(
            applied,
            located,
            &layout.claude_project_settings,
            &observations,
            &profiles(),
        )
    };
    let (outcome, path) = ask(true, located()).unwrap();
    assert!(matches!(
        outcome,
        AgentDiscoveryOutcomeV1::Supported { ref version, .. } if version == "not-probed"
    ));
    assert_eq!(path, "/root/bin/agent");
    assert!(matches!(ask(false, located()), Err(AgentFilesystemScanError::SourceChanged)));
    assert!(matches!(ask(true, Ok(None)), Err(AgentFilesystemScanError::SourceUnavailable)));
    assert!(matches!(
        claude_installation_for_applied_user_change(
            true,
            located(),
            &layout.claude_project_settings,
            &observations,
            &vec![],
        ),
        Err(AgentFilesystemScanError::InvalidConfig)
    ));
}

#[test]
fn layouts_follow_the_process() {
    let layout = AgentFilesystemLayoutV1::from_process(
        "/home/me",
        "/work/",
        None,
        Some("/opt/codex"),
        vec!["/etc/managed.json".to_owned()],
        vec![],
        vec![],
    );
    assert_eq!(layout.codex_user_config, "/opt/codex/config.toml");
    assert_eq!(layout.claude_user_settings, format!("/home/me/.{}/settings.json", agent()));
    assert_eq!(
        layout.claude_project_settings,
        vec![
            format!("/work/.{}/settings.local.json", agent()),
            format!("/work/.{}/settings.json", agent()),
        ]
    );
    let configured = AgentFilesystemLayoutV1::from_process(
        "/home/me", "/work", Some("/conf"), Some(""), vec![], vec![], vec![],
    );
    assert_eq!(configured.claude_user_settings, "/conf/settings.json");
    assert_eq!(configured.codex_user_config, "/home/me/.codex/config.toml");
    assert_eq!(codex_config_path("/h", None), "/h/.codex/config.toml");
    assert_eq!(layout.claude_sources().len(), 5);
}

#[test]
fn surfaces_follow_what_was_located() {
    let mut layout = layout();
    assert_eq!(
        codex_engine_target(&layout, AgentModelSurfaceV2::CodexCli).as_deref(),
        Some("/root/bin/codex")
    );
    assert_eq!(codex_engine_target(&layout, AgentModelSurfaceV2::CodexDesktop), None);
    layout.codex_desktop_executable = Some("/app/codex".to_owned());
    assert_eq!(
        codex_engine_target(&layout, AgentModelSurfaceV2::CodexDesktop).as_deref(),
        Some("/app/codex")
    );
    assert_eq!(codex_engine_target(&layout, AgentModelSurfaceV2::ClaudeCli), None);
    assert_eq!(
        available_model_surfaces("agent_codex_default", true, true, true),
        vec![AgentModelSurfaceV2::CodexCli, AgentModelSurfaceV2::CodexDesktop]
    );
    assert_eq!(
        available_model_surfaces("agent_claude_default", true, true, true),
        vec![AgentModelSurfaceV2::ClaudeCli]
    );
    assert!(available_model_surfaces("other", true, true, true).is_empty());
}

#[test]
fn codex_settings_that_conflict_are_only_reported() {
    let setting = |layer, text: &str| ConfigObservationV1 {
        path: "model".to_owned(),
        layer,
        value: Json::Str(text.to_owned()),
        source_digest: CanonicalDigest::of_bytes(text.as_bytes()).as_str().to_owned(),
    };
    let profiles = vec![AgentProfileFacts { is_valid: true, owned_paths: texts(&["model"]) }];
    let found = scan_codex(
        &Ok(Some("/x".to_owned())),
        Ok(vec![setting(ConfigLayerV1::User, "a"), setting(ConfigLayerV1::User, "b")]),
        &profiles,
    );
    assert_eq!(reason(&found), AgentReportOnlyReasonV1::ConflictingEffectiveConfig);
    let found = scan_codex(
        &Ok(Some("/x".to_owned())),
        Err(AgentFilesystemScanError::InvalidConfig),
        &profiles,
    );
    assert_eq!(reason(&found), AgentReportOnlyReasonV1::ConfigUnavailable);
    let found = scan_codex(&Err(ProbeFailure::TimedOut), Ok(vec![]), &profiles);
    assert_eq!(reason(&found), AgentReportOnlyReasonV1::ExecutableProbeTimedOut);
    assert_eq!(
        digest(&found),
        CanonicalDigest::of_bytes(b"agent-report-only\0agent_codex_default\0\0ExecutableProbeTimedOut").as_str()
    );
}

#[test]
fn group_writable_claude_executable_is_probed_and_safe_configuration_is_discovered() {
    let files = files(&[(
        USER,
        format!(
            "{{\"apiKeyHelper\":\"touch /root/helper-executed\",\"env\":{{\"ANTHROPIC_BASE_URL\":\"{GLM}\",\"ANTHROPIC_MODEL\":\"glm-5.3\",\"ANTHROPIC_AUTH_TOKEN\":\"secret-never-serialized\"}}}}"
        ),
    )]);
    let found = scan(&layout(), &files);
    assert!(matches!(
        &found.outcome,
        AgentDiscoveryOutcomeV1::Supported { version, .. } if version == "2.1.231"
    ));
    assert!(found.claude_configuration.is_some());
    assert!(found.discovered_credential.is_some());
    assert!(found.configuration_issue.is_none());
    assert!(found.managed_launch.is_some());
    let encoded = format!("{found:?}");
    assert!(!encoded.contains("secret-never-serialized"));
    assert!(!encoded.contains("/root/helper-executed"));
}

#[test]
fn group_writable_claude_reports_unknown_configuration_without_exposing_or_importing_it() {
    for (endpoint, model, issue) in [
        (
            "https://attacker.invalid",
            "glm-5.3",
            AgentReportOnlyReasonV1::UnregisteredEndpoint,
        ),
        (GLM, "unknown-model", AgentReportOnlyReasonV1::UnregisteredModel),
    ] {
        let files = files(&[(
            USER,
            format!(
                "{{\"apiKeyHelper\":\"touch /root/helper-executed\",\"env\":{{\"ANTHROPIC_BASE_URL\":\"{endpoint}\",\"ANTHROPIC_MODEL\":\"{model}\",\"ANTHROPIC_AUTH_TOKEN\":\"unknown-secret-never-serialized\"}}}}"
            ),
        )]);
        let found = scan(&layout(), &files);
        assert!(matches!(
            &found.outcome,
            AgentDiscoveryOutcomeV1::ReportOnly { version, reason, .. }
                if version == "2.1.231" && *reason == issue
        ));
        assert_eq!(found.configuration_issue, Some(issue));
        assert!(found.claude_configuration.is_none());
        assert!(found.discovered_credential.is_none());
        assert!(found.managed_launch.is_some());
        let encoded = format!("{found:?}");
        assert!(!encoded.contains(endpoint));
        assert!(!encoded.contains(model));
        assert!(!encoded.contains("unknown-secret-never-serialized"));
        assert!(!encoded.contains("/root/helper-executed"));
    }
}

fn observed_text(text: &str) -> Result<ObservedClaudeSettings, AgentFilesystemScanError> {
    observe_file(
        ConfigLayerV1::User,
        USER,
        &Ok(Some(SettingsRead {
            bytes: text.as_bytes().to_vec(),
            file: facts(text.len()),
            document: document(text),
        })),
        &conflicts(),
    )
}

#[test]
fn members_that_are_not_read_may_hold_anything() {
    let deep = format!("{}{}", "[".repeat(200), "]".repeat(200));
    for skipped in [deep.as_str(), "1e400", "\"\\ud800\"", "{\"a\":1,\"a\":2}"] {
        let text = format!(
            "{{\"other\":{skipped},\"model\":\"m\",\"apiKeyHelper\":{skipped},\"env\":{{\"X\":{skipped},\"ANTHROPIC_MODEL\":\"a\",\"ANTHROPIC_API_KEY\":{skipped},\"ANTHROPIC_MODEL\":\"b\"}}}}"
        );
        let settings = observed_text(&text).unwrap().settings;
        assert_eq!(settings.model.as_deref(), Some("m"));
        assert!(settings.api_key_helper_present);
        assert_eq!(settings.env.model.as_deref(), Some("b"));
        assert_eq!(
            settings.env.present_environment_fields,
            vec!["ANTHROPIC_API_KEY", "ANTHROPIC_MODEL"]
        );
    }
}

#[test]
fn members_that_are_read_have_their_form_and_stand_once() {
    for text in [
        "{\"model\":\"a\",\"model\":\"b\"}",
        "{\"env\":{},\"env\":{}}",
        "{\"model\":7}",
        "{\"env\":[]}",
        "{\"env\":{\"ANTHROPIC_BASE_URL\":null}}",
        "[]",
        "{",
    ] {
        assert!(
            matches!(observed_text(text), Err(AgentFilesystemScanError::InvalidConfig)),
            "{text}"
        );
    }
    let skipped = |members| {
        observe_file(
            ConfigLayerV1::User,
            USER,
            &Ok(Some(SettingsRead {
                bytes: vec![],
                file: facts(0),
                document: Some(SettingsDocument { members }),
            })),
            &conflicts(),
        )
    };
    assert!(skipped(vec![("model".to_owned(), SettingsMember::Skipped)]).is_err());
    assert!(skipped(vec![(
        "env".to_owned(),
        SettingsMember::Variables(vec![("ANTHROPIC_MODEL".to_owned(), None)])
    )])
    .is_err());
    assert!(skipped(vec![]).unwrap().settings.model.is_none());
}

#[test]
fn present_names_stand_in_order_whatever_order_they_come_in() {
    let given = |names: &[&str]| {
        AgentFilesystemLayoutV1::from_process(
            "/home/me",
            "/work",
            None,
            None,
            vec![],
            vec![],
            texts(names),
        )
    };
    let layout = given(&["B", "A", "C", "A"]);
    assert_eq!(layout.process_environment_presence, texts(&["A", "B", "C"]));
    let observed = |layout: &AgentFilesystemLayoutV1, names: &[&str]| {
        observe_process(
            &vec![
                ("CLAUDE_CODE_MAX_CONTEXT_TOKENS".to_owned(), "2".to_owned()),
                ("CLAUDE_CODE_AUTO_COMPACT_WINDOW".to_owned(), "1".to_owned()),
            ],
            &layout.process_environment_presence,
            &texts(names),
        )
    };
    let mut unordered = given(&[]);
    unordered.process_environment_presence = texts(&["C", "A", "B"]);
    let forward = ["CLAUDE_CODE_AUTO_COMPACT_WINDOW", "CLAUDE_CODE_MAX_CONTEXT_TOKENS"];
    let backward = ["CLAUDE_CODE_MAX_CONTEXT_TOKENS", "CLAUDE_CODE_AUTO_COMPACT_WINDOW"];
    let first = observed(&layout, &forward);
    assert_eq!(first.settings.env.present_environment_fields, texts(&["A", "B", "C"]));
    assert_eq!(
        first.digest.as_str(),
        CanonicalDigest::of_bytes(
            b"\0\0\0A,B,C\0false\0{\"CLAUDE_CODE_AUTO_COMPACT_WINDOW\": \"1\", \"CLAUDE_CODE_MAX_CONTEXT_TOKENS\": \"2\"}"
        )
        .as_str()
    );
    for other in [observed(&layout, &backward), observed(&unordered, &forward)] {
        assert_eq!(other.digest.as_str(), first.digest.as_str());
        assert_eq!(other.revision, first.revision);
    }
}

#[test]
fn local_files_hide_the_project_file_that_their_path_leads_to() {
    let set = |model: &str| env(&[("ANTHROPIC_MODEL", model)]);
    for (local, project, hidden) in [
        ("/p/settings.local.json", "/p/settings.json", true),
        ("/p//settings.local.json", "/p/settings.json", true),
        ("/p/./settings.local.json/", "/p/settings.json", true),
        ("/p/settings.local.json", "/p/./settings.json", false),
        ("/p/settings.local.json", "/q/settings.json", false),
        ("/p/other.local.json", "/p/settings.json", false),
    ] {
        let mut layout = layout();
        layout.claude_project_settings = vec![local.to_owned(), project.to_owned()];
        let files = files(&[(local, set("local")), (project, set("project"))]);
        let resolved = resolve_project_local_fields(
            &layout.claude_project_settings,
            &observe(&layout, &files).unwrap(),
        );
        let of = |path: &str| {
            let source = ClaudeSource::File(ConfigLayerV1::Project, path.to_owned()).source_ref();
            let found = resolved.iter().find(|observed| observed.source_ref == source).unwrap();
            found.settings.env.model.clone()
        };
        assert_eq!(of(local).as_deref(), Some("local"));
        assert_eq!(of(project).is_none(), hidden, "{local} {project}");
    }
}
