use hiroute::agents::claude_config::{
    auth_name, claude_change_bytes_are_applied, claude_user_change_is_applied, context_variable,
    preview, rebase_claude_change_bytes, render_claude_change_bytes, render_claude_helper_command,
    render_claude_user_change, restore_claude_change_bytes, AgentConfigChangeV1, WantedField,
    MAX_CONFIG_BYTES,
};
use hiroute::agents::claude_effects::{
    accept_record, check_binding, check_reconfigured, claude_native_configuration_is_applied,
    decode_record,
    encode_record, save_claude_configuration, stage_claude_configuration,
    stage_claude_reconfiguration, stage_claude_restoration, PortError, PortErrorCode,
    RecordedChange, RECORD_LIMIT,
};
use hiroute::agents::discovery::AgentKindV1;
use hiroute::agents::filesystem::AgentFilesystemScanError;
use hiroute::digest::CanonicalDigest;
use hiroute::json::{parse_json, to_bytes, Json};

const VERB: &str = "agent-grant-helper";

fn json(text: &str) -> Json {
    parse_json(text.as_bytes()).unwrap()
}

fn members(bytes: &[u8]) -> Vec<(String, Json)> {
    match parse_json(bytes).unwrap() {
        Json::Object(members) => members,
        other => panic!("{other:?}"),
    }
}

fn value(bytes: &[u8]) -> serde_json::Value {
    serde_json::from_slice(bytes).unwrap()
}

fn wanted(path: &str, after: Option<&str>) -> WantedField {
    WantedField { path: path.to_owned(), after: after.map(json) }
}

fn connection() -> String {
    format!(
        "agent-connection/agent_claude_default/{}-messages-v1",
        AgentKindV1::ClaudeCode.command_text()
    )
}

fn helper() -> String {
    format!(
        "{{\"executable\":\"/opt/hiroute/bin/hiroute\",\"argv\":[\"{VERB}\",\"{}\"]}}",
        connection()
    )
}

fn quoted(text: &str) -> String {
    format!("\"{text}\"")
}

fn managed_values(alias: &str) -> Vec<WantedField> {
    vec![
        wanted("apiKeyHelper", Some(&helper())),
        wanted("hiroute.auth_environment", None),
        wanted("env.ANTHROPIC_BASE_URL", Some("\"http://127.0.0.1:35837\"")),
        wanted("env.ANTHROPIC_MODEL", Some(&quoted(alias))),
        wanted("env.ANTHROPIC_DEFAULT_OPUS_MODEL", Some(&quoted(alias))),
        wanted("env.ANTHROPIC_DEFAULT_SONNET_MODEL", Some(&quoted(alias))),
        wanted("env.ANTHROPIC_DEFAULT_HAIKU_MODEL", Some(&quoted(alias))),
        wanted("env.ANTHROPIC_SMALL_FAST_MODEL", Some(&quoted(alias))),
    ]
}

fn change(bytes: &[u8], wanted: Vec<WantedField>) -> AgentConfigChangeV1 {
    preview(&members(bytes), &wanted)
}

fn render(bytes: &[u8], change: &AgentConfigChangeV1) -> Vec<u8> {
    render_claude_change_bytes(bytes, true, change, VERB).unwrap()
}

#[test]
fn claude_reconfiguration_keeps_opaque_user_helper_in_the_formal_restore_base() {
    let original = br#"{"theme":"dark","apiKeyHelper":"user-owned-helper --do-not-run","env":{"ANTHROPIC_BASE_URL":"https://provider.example/anthropic","ANTHROPIC_MODEL":"provider-model","ANTHROPIC_AUTH_TOKEN":"user-secret","UNRELATED":"keep-me"}}"#;
    let first_change = change(original, managed_values("hiroute/first"));
    let configured = render(original, &first_change);
    let update_change = change(&configured, managed_values("hiroute/second"));
    let (updated, rebased) = rebase_claude_change_bytes(
        &configured,
        true,
        original,
        true,
        &first_change,
        &update_change,
        VERB,
    )
    .unwrap();
    let restored_helper = rebased
        .fields
        .iter()
        .find(|field| field.path == "apiKeyHelper")
        .expect("opaque user helper must remain owned by the rebased restore change");
    assert_eq!(
        to_bytes(restored_helper.after.as_ref().unwrap()),
        to_bytes(&json(&helper()))
    );
    assert!(!format!("{rebased:?}").contains("user-secret"));
    assert!(!format!("{rebased:?}").contains("do-not-run"));

    let restored =
        restore_claude_change_bytes(&updated, true, original, true, &rebased, VERB).unwrap();
    assert_eq!(value(&restored), value(original));
}

#[test]
fn managed_claude_helper_cannot_leave_an_original_token_in_the_native_file() {
    let original = br#"{"env":{"ANTHROPIC_AUTH_TOKEN":"must-not-survive"}}"#;
    let desired = managed_values("hiroute/selected")
        .into_iter()
        .filter(|field| field.path != "hiroute.auth_environment")
        .collect();
    let unsafe_change = change(original, desired);
    assert!(render_claude_change_bytes(original, true, &unsafe_change, VERB).is_err());
}

#[test]
fn claude_native_renderer_preserves_unowned_settings_and_replaces_auth_atomically() {
    let original = br#"{"theme":"dark","env":{"ANTHROPIC_BASE_URL":"https://open.bigmodel.cn/api/anthropic","ANTHROPIC_MODEL":"glm-5.3","ANTHROPIC_DEFAULT_OPUS_MODEL":"glm-5.3[1m]","ANTHROPIC_AUTH_TOKEN":"secret-never-journaled","UNRELATED":"keep-me"}}"#;
    let alias = "hiroute/0123456789abcdef";
    let change = change(original, managed_values(alias));
    let rendered = render(original, &change);
    let mut rewritten = value(&rendered);
    assert_eq!(rewritten["theme"], "dark");
    assert_eq!(rewritten["env"]["UNRELATED"], "keep-me");
    for name in [
        "ANTHROPIC_MODEL",
        "ANTHROPIC_DEFAULT_OPUS_MODEL",
        "ANTHROPIC_DEFAULT_SONNET_MODEL",
        "ANTHROPIC_DEFAULT_HAIKU_MODEL",
        "ANTHROPIC_SMALL_FAST_MODEL",
    ] {
        assert_eq!(rewritten["env"][name], alias);
    }
    assert!(rewritten["env"].get("ANTHROPIC_AUTH_TOKEN").is_none());
    assert!(rewritten["apiKeyHelper"].as_str().unwrap().contains(VERB));
    assert!(!String::from_utf8_lossy(&rendered).contains("secret-never-journaled"));

    let applied =
        |bytes: &[u8]| claude_change_bytes_are_applied(bytes, true, &change, VERB).unwrap();
    assert!(applied(&rendered));
    rewritten["claude_unowned_runtime_field"] = serde_json::Value::Bool(true);
    assert!(applied(&serde_json::to_vec(&rewritten).unwrap()));
    rewritten["env"]["ANTHROPIC_MODEL"] = serde_json::Value::from("not-the-managed-alias");
    assert!(!applied(&serde_json::to_vec_pretty(&rewritten).unwrap()));
}

#[test]
fn claude_managed_helper_detects_auth_added_after_a_token_free_save() {
    let original = br#"{"env":{"UNRELATED":"keep-me"}}"#;
    let change = change(
        original,
        vec![
            wanted("apiKeyHelper", Some(&helper())),
            wanted("hiroute.auth_environment", None),
            wanted("env.ANTHROPIC_BASE_URL", Some("\"http://127.0.0.1:35837\"")),
        ],
    );
    assert!(change.fields.iter().all(|field| field.path != "hiroute.auth_environment"));
    let rendered = render(original, &change);
    assert!(claude_change_bytes_are_applied(&rendered, true, &change, VERB).unwrap());
    for name in ["ANTHROPIC_AUTH_TOKEN", "ANTHROPIC_API_KEY", "ANTHROPIC_CUSTOM_HEADERS"] {
        let mut modified = value(&rendered);
        modified["env"][name] = serde_json::Value::from("unexpected-credential");
        let modified = serde_json::to_vec(&modified).unwrap();
        assert!(
            !claude_change_bytes_are_applied(&modified, true, &change, VERB).unwrap(),
            "{name} must invalidate a managed helper"
        );
    }
}

fn context(window: Option<&str>) -> Vec<WantedField> {
    vec![
        wanted("env.CLAUDE_CODE_AUTO_COMPACT_WINDOW", window),
        wanted("env.CLAUDE_CODE_MAX_CONTEXT_TOKENS", window),
    ]
}

#[test]
fn claude_context_policy_detects_overrides_and_restores_owned_values() {
    let original = br#"{"env":{"CLAUDE_CODE_AUTO_COMPACT_WINDOW":"500000","CLAUDE_CODE_MAX_CONTEXT_TOKENS":"900000","UNRELATED":"keep"}}"#;
    let change = change(original, context(Some("\"272000\"")));
    let rendered = render(original, &change);
    let parsed = value(&rendered);
    assert_eq!(parsed["env"]["CLAUDE_CODE_AUTO_COMPACT_WINDOW"], "272000");
    assert_eq!(parsed["env"]["UNRELATED"], "keep");
    let restored =
        restore_claude_change_bytes(&rendered, true, original, true, &change, VERB).unwrap();
    assert_eq!(value(&restored), value(original));
    assert!(context_variable("CLAUDE_CODE_MAX_CONTEXT_TOKENS"));
    assert!(!context_variable("DISABLE_COMPACT"));
}

#[test]
fn claude_context_policy_release_rebases_to_original_preferences() {
    let original = br#"{"env":{"CLAUDE_CODE_AUTO_COMPACT_WINDOW":"500000"}}"#;
    let first = change(original, context(Some("\"272000\"")));
    let current = render(original, &first);
    let release = change(&current, context(None));
    let (rendered, rebased) =
        rebase_claude_change_bytes(&current, true, original, true, &first, &release, VERB).unwrap();
    assert_eq!(value(&rendered), value(original));
    assert!(rebased.is_valid);
}

#[test]
fn restorations_keep_what_the_user_wrote_meanwhile() {
    let original = br#"{"theme":"dark","env":{"ANTHROPIC_MODEL":"mine","ANTHROPIC_API_KEY":"k"}}"#;
    let change = change(original, managed_values("hiroute/alias"));
    let mut current = value(&render(original, &change));
    current["theme"] = serde_json::Value::from("light");
    current["env"]["NEW"] = serde_json::Value::from("1");
    let current = serde_json::to_vec(&current).unwrap();
    let restored = value(
        &restore_claude_change_bytes(&current, true, original, true, &change, VERB).unwrap(),
    );
    assert_eq!(restored["theme"], "light");
    assert_eq!(restored["env"]["NEW"], "1");
    assert_eq!(restored["env"]["ANTHROPIC_MODEL"], "mine");
    assert_eq!(restored["env"]["ANTHROPIC_API_KEY"], "k");
    assert!(restored.get("apiKeyHelper").is_none());
    assert!(matches!(
        restore_claude_change_bytes(b"{}", true, original, true, &change, VERB),
        Err(AgentFilesystemScanError::SourceChanged)
    ));
}

#[test]
fn changes_of_unmanaged_paths_and_bad_files_are_refused() {
    let good = change(b"{}", context(Some("\"1\"")));
    assert!(matches!(
        render_claude_change_bytes(b"[]", true, &good, VERB),
        Err(AgentFilesystemScanError::InvalidConfig)
    ));
    assert!(matches!(
        render_claude_change_bytes(b"{}", false, &good, VERB),
        Err(AgentFilesystemScanError::InvalidConfig)
    ));
    let mut foreign = change(b"{}", context(Some("\"1\"")));
    foreign.fields[0].path = "theme".to_owned();
    assert!(matches!(
        render_claude_change_bytes(b"{}", true, &foreign, VERB),
        Err(AgentFilesystemScanError::InvalidDescriptor)
    ));
    let mut refused = change(b"{}", context(Some("\"1\"")));
    refused.is_valid = false;
    assert!(matches!(
        claude_user_change_is_applied(&Ok(None), true, &refused, VERB),
        Err(AgentFilesystemScanError::InvalidDescriptor)
    ));
    assert!(matches!(claude_user_change_is_applied(&Ok(None), true, &good, VERB), Ok(false)));
    let huge = format!("{{\"a\":\"{}\"}}", "x".repeat(MAX_CONFIG_BYTES - 20));
    assert!(matches!(
        render_claude_change_bytes(huge.as_bytes(), true, &good, VERB),
        Err(AgentFilesystemScanError::ConfigTooLarge)
    ));
    let rendered = render_claude_user_change(None, false, &good, VERB).unwrap();
    assert_eq!(value(&rendered)["env"]["CLAUDE_CODE_AUTO_COMPACT_WINDOW"], "1");
}

#[test]
fn helper_commands_are_quoted_for_the_shell() {
    assert_eq!(
        render_claude_helper_command(&json(&helper()), VERB),
        Some(format!("'/opt/hiroute/bin/hiroute' '{VERB}' '{}'", connection()))
    );
    for bad in [
        "{\"executable\":\"relative\",\"argv\":[\"agent-grant-helper\",\"agent-connection/x\"]}",
        "{\"executable\":\"/a\",\"argv\":[\"other\",\"agent-connection/x\"]}",
        "{\"executable\":\"/a\",\"argv\":[\"agent-grant-helper\",\"x\"]}",
        "{\"executable\":\"/a\",\"argv\":[\"agent-grant-helper\"]}",
        "{\"executable\":\"/a\",\"argv\":[\"agent-grant-helper\",\"agent-connection/x\"],\"more\":1}",
        "\"text\"",
    ] {
        assert_eq!(render_claude_helper_command(&json(bad), VERB), None, "{bad}");
    }
    assert!(auth_name("ANTHROPIC_API_KEY"));
    assert!(!auth_name("ANTHROPIC_MODEL"));
}

fn is_error(error: PortError, code: PortErrorCode, context: &str) {
    assert_eq!(error.code, code);
    assert_eq!(
        error.full_context(),
        format!("{}.{context}", AgentKindV1::ClaudeCode.command_text())
    );
}

#[test]
fn records_give_back_their_parts() {
    let record = encode_record(true, b"change", b"{}").unwrap();
    assert_eq!(&record[..6], &[1, 1, 6, 0, 0, 0]);
    let parts = decode_record(&record).unwrap();
    assert!(parts.existed);
    assert_eq!(parts.change, b"change".to_vec());
    assert_eq!(parts.original, b"{}".to_vec());
    let long = vec![7u8; 70_000];
    let record = encode_record(false, &long, b"{}").unwrap();
    assert_eq!(decode_record(&record).unwrap().change, long);
    is_error(
        encode_record(true, &vec![0; RECORD_LIMIT], b"").unwrap_err(),
        PortErrorCode::InvalidData,
        "restore.bound",
    );
    for (record, context) in [
        (vec![1, 0, 0, 0, 0, 0, 1], "restore.schema"),
        (vec![2, 0, 0, 0, 0, 0, 1, 1], "restore.schema"),
        (vec![1, 2, 0, 0, 0, 0, 1, 1], "restore.schema"),
        (vec![1, 0, 2, 0, 0, 0, 1, 1], "restore.length"),
    ] {
        is_error(decode_record(&record).unwrap_err(), PortErrorCode::Corrupt, context);
    }
}

fn recorded(existed: bool, original: &[u8], change: AgentConfigChangeV1) -> RecordedChange {
    RecordedChange { existed, original: original.to_vec(), original_strict: true, change }
}

#[test]
fn staged_changes_are_undone_from_their_record() {
    let original: &[u8] = br#"{"env":{"ANTHROPIC_AUTH_TOKEN":"t"}}"#;
    let digest = CanonicalDigest::of_bytes(original);
    let edit = change(original, managed_values("hiroute/one"));
    let staged = stage_claude_configuration(
        Some(original),
        true,
        &digest,
        &edit,
        Some(b"document"),
        VERB,
    )
    .unwrap();
    let parts = decode_record(&staged.record).unwrap();
    assert!(parts.existed);
    assert_eq!(parts.original, original.to_vec());
    let record = accept_record(parts, Some(edit), true).unwrap();
    assert!(matches!(
        claude_native_configuration_is_applied(Some(&staged.rendered), true, &record, VERB),
        Ok(true)
    ));
    assert!(matches!(
        claude_native_configuration_is_applied(None, true, &record, VERB),
        Ok(false)
    ));
    let restored =
        stage_claude_restoration(Some(&staged.rendered), true, &record, VERB).unwrap().unwrap();
    assert_eq!(value(&restored), value(original));
    is_error(
        stage_claude_restoration(None, true, &record, VERB).unwrap_err(),
        PortErrorCode::Conflict,
        "restore.removed",
    );
    is_error(
        stage_claude_restoration(Some(b"{}"), true, &record, VERB).unwrap_err(),
        PortErrorCode::Conflict,
        "restore.fields",
    );
    let second = change(&staged.rendered, managed_values("hiroute/two"));
    let rebased = stage_claude_reconfiguration(
        Some(&staged.rendered),
        true,
        &CanonicalDigest::of_bytes(&staged.rendered),
        &record,
        &second,
        VERB,
    )
    .unwrap();
    assert!(rebased.existed);
    assert_eq!(value(&rebased.base), value(original));
    let saved = save_claude_configuration(
        rebased.existed,
        &rebased.base,
        Some(b"document"),
        rebased.rendered,
    )
    .unwrap();
    let again = recorded(true, &rebased.base, rebased.change);
    let restored = stage_claude_restoration(Some(&saved.rendered), true, &again, VERB)
        .unwrap()
        .unwrap();
    assert_eq!(value(&restored), value(original));
}

#[test]
fn files_that_were_absent_are_removed_again() {
    let edit = change(b"{}", managed_values("hiroute/one"));
    let staged = stage_claude_configuration(
        None,
        false,
        &CanonicalDigest::of_bytes(b""),
        &edit,
        Some(b"document"),
        VERB,
    )
    .unwrap();
    let parts = decode_record(&staged.record).unwrap();
    assert!(!parts.existed);
    assert_eq!(parts.original, b"{}".to_vec());
    let record = accept_record(parts, Some(edit), true).unwrap();
    assert!(matches!(
        stage_claude_restoration(Some(&staged.rendered), true, &record, VERB),
        Ok(None)
    ));
    assert!(matches!(stage_claude_restoration(None, true, &record, VERB), Ok(None)));
    let mut kept = value(&staged.rendered);
    kept["theme"] = serde_json::Value::from("dark");
    let kept = serde_json::to_vec(&kept).unwrap();
    let restored = stage_claude_restoration(Some(&kept), true, &record, VERB).unwrap().unwrap();
    assert_eq!(value(&restored)["theme"], "dark");
}

#[test]
fn staging_fails_where_the_file_or_the_record_moved() {
    let edit = || change(b"{}", managed_values("hiroute/one"));
    let digest = CanonicalDigest::of_bytes(b"other");
    is_error(
        stage_claude_configuration(Some(b"{}"), true, &digest, &edit(), Some(b"d"), VERB)
            .unwrap_err(),
        PortErrorCode::Conflict,
        "preview.changed",
    );
    let here = CanonicalDigest::of_bytes(b"[]");
    is_error(
        stage_claude_configuration(Some(b"[]"), true, &here, &edit(), Some(b"d"), VERB)
            .unwrap_err(),
        PortErrorCode::Conflict,
        "native.render",
    );
    let empty = CanonicalDigest::of_bytes(b"{}");
    is_error(
        stage_claude_configuration(Some(b"{}"), true, &empty, &edit(), None, VERB).unwrap_err(),
        PortErrorCode::InvalidData,
        "change.encode",
    );
    let record = recorded(true, b"{}", edit());
    is_error(
        stage_claude_reconfiguration(None, true, &empty, &record, &edit(), VERB).unwrap_err(),
        PortErrorCode::Conflict,
        "reconfigure.removed",
    );
    is_error(
        stage_claude_reconfiguration(Some(b"{}"), true, &digest, &record, &edit(), VERB)
            .unwrap_err(),
        PortErrorCode::Conflict,
        "reconfigure.changed",
    );
    is_error(
        stage_claude_reconfiguration(Some(b"{}"), true, &empty, &record, &edit(), VERB)
            .unwrap_err(),
        PortErrorCode::Conflict,
        "reconfigure.fields",
    );
    let parts = || decode_record(&encode_record(true, b"c", b"{}").unwrap()).unwrap();
    is_error(
        accept_record(parts(), None, true).unwrap_err(),
        PortErrorCode::Corrupt,
        "restore.change",
    );
    assert!(check_binding(false, true, true).is_ok());
    is_error(
        check_binding(true, true, true).unwrap_err(),
        PortErrorCode::InvalidData,
        "restore.binding",
    );
    is_error(
        check_binding(false, false, false).unwrap_err(),
        PortErrorCode::InvalidData,
        "reconfigure.binding",
    );
    is_error(
        claude_native_configuration_is_applied(Some(b"["), true, &record, VERB).unwrap_err(),
        PortErrorCode::Conflict,
        "status.fields",
    );
}

#[test]
fn rendered_changes_stand_however_the_file_is_spelled() {
    let original = br#"{"theme":"dark","env":{"UNRELATED":"keep-me"}}"#;
    let made = change(original, managed_values("hiroute/first"));
    let rendered = render(original, &made);
    let stands = |bytes: &[u8]| claude_change_bytes_are_applied(bytes, true, &made, VERB).unwrap();
    assert!(stands(&rendered));
    assert!(stands(&serde_json::to_vec(&value(&rendered)).unwrap()));
    let mut other = value(&rendered);
    other["statusLine"] = serde_json::Value::from(7);
    other["env"]["UNRELATED"] = serde_json::Value::from("changed");
    other["env"]["ADDED"] = serde_json::Value::from(1.5);
    assert!(stands(&serde_json::to_vec(&other).unwrap()));
    for name in [
        "ANTHROPIC_AUTH_TOKEN",
        "ANTHROPIC_API_KEY",
        "ANTHROPIC_CUSTOM_HEADERS",
        "CLAUDE_CODE_USE_BEDROCK",
        "CLAUDE_CODE_USE_FOUNDRY",
        "CLAUDE_CODE_USE_VERTEX",
    ] {
        let mut with_auth = value(&rendered);
        with_auth["env"][name] = serde_json::Value::from("secret");
        assert!(!stands(&serde_json::to_vec(&with_auth).unwrap()), "{name}");
    }
}

#[test]
fn restorations_give_back_fractions_and_deep_values() {
    let deep = format!("{}{}", "[".repeat(126), "]".repeat(126));
    let original =
        format!("{{\"ratio\":0.25,\"large\":1e300,\"deep\":{deep},\"apiKeyHelper\":\"mine\"}}");
    let made = change(original.as_bytes(), managed_values("hiroute/first"));
    let rendered = render(original.as_bytes(), &made);
    assert!(claude_change_bytes_are_applied(&rendered, true, &made, VERB).unwrap());
    let restored = restore_claude_change_bytes(
        &rendered,
        true,
        original.as_bytes(),
        true,
        &made,
        VERB,
    )
    .unwrap();
    assert_eq!(value(&restored), value(original.as_bytes()));
    let deeper = format!("{{\"deep\":[{deep}]}}");
    assert!(parse_json(deeper.as_bytes()).is_none());
}

#[test]
fn fractions_and_whole_numbers_are_read_apart() {
    assert!(matches!(json("1"), Json::Pos(1)));
    assert!(matches!(json("-1"), Json::Neg(-1)));
    for text in ["1.0", "0.1", "-0.0", "1e16"] {
        let read = json(text);
        assert!(matches!(read, Json::Float(_)), "{text}");
        let again = parse_json(&to_bytes(&read)).unwrap();
        assert!(matches!(again, Json::Float(_)), "{text}");
        assert_eq!(to_bytes(&again), to_bytes(&read));
    }
    assert_eq!(to_bytes(&json("[1.0,1]")), b"[1.0,1]");
}

#[test]
fn reconfigured_files_are_looked_at_before_their_record() {
    let previewed = CanonicalDigest::of_bytes(b"{}");
    let fault = |current: Option<&[u8]>| {
        let error = check_reconfigured(current, &previewed).unwrap_err();
        (error.code, error.context)
    };
    assert_eq!(fault(None), (PortErrorCode::Conflict, "reconfigure.removed"));
    assert_eq!(fault(Some(b"{ }")), (PortErrorCode::Conflict, "reconfigure.changed"));
    assert_eq!(check_reconfigured(Some(b"{}"), &previewed).unwrap(), b"{}");
}

#[test]
fn previews_stand_in_the_order_of_their_paths() {
    let original = br#"{"env":{"ANTHROPIC_MODEL":"old"}}"#;
    let made = change(
        original,
        vec![
            wanted("hiroute.auth_environment", None),
            wanted("env.ANTHROPIC_MODEL", Some("\"first\"")),
            wanted("env.ANTHROPIC_BASE_URL", Some("\"http://127.0.0.1:1\"")),
            wanted("apiKeyHelper", Some(&helper())),
            wanted("env.ANTHROPIC_MODEL", Some("\"last\"")),
        ],
    );
    let fields: Vec<(&str, Vec<u8>)> = made
        .fields
        .iter()
        .map(|field| (field.path.as_str(), to_bytes(field.after.as_ref().unwrap())))
        .collect();
    assert_eq!(
        fields,
        vec![
            ("apiKeyHelper", to_bytes(&json(&helper()))),
            ("env.ANTHROPIC_BASE_URL", b"\"http://127.0.0.1:1\"".to_vec()),
            ("env.ANTHROPIC_MODEL", b"\"last\"".to_vec()),
        ]
    );
}
