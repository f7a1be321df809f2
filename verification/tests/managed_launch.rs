use hiroute::agents::managed_launch::{
    launch_arguments, launch_environment, launch_overlay, verify_claude_executable, write_overlay,
    AgentAuthRoutingFieldV1, ManagedClaudeLaunchDescriptorV2, ManagedClaudeProcessError,
};
use hiroute::json::{parse_json, to_bytes, Json};

fn json(text: &str) -> Json {
    parse_json(text.as_bytes()).unwrap()
}

fn texts(list: &[&str]) -> Vec<String> {
    list.iter().map(|text| text.to_string()).collect()
}

fn conflicts() -> Vec<String> {
    texts(&[
        "CLAUDE_CODE_AUTO_COMPACT_WINDOW",
        "CLAUDE_CODE_MAX_CONTEXT_TOKENS",
        "DISABLE_COMPACT",
    ])
}

fn descriptor() -> ManagedClaudeLaunchDescriptorV2 {
    ManagedClaudeLaunchDescriptorV2 {
        executable: "/trusted/agent".to_owned(),
        gateway_base_url: "http://127.0.0.1:4321".to_owned(),
        preset_opus: Some("hiroute-plan".to_owned()),
        preset_sonnet: None,
        preset_haiku: None,
        helper_executable: "/trusted/hiroute".to_owned(),
        helper_argv: texts(&["grant", "it's"]),
        environment_removals: texts(&[
            "ANTHROPIC_API_KEY",
            "ANTHROPIC_AUTH_TOKEN",
            "ANTHROPIC_BASE_URL",
            "ANTHROPIC_MODEL",
        ]),
        context_window_tokens: None,
    }
}

fn last(changes: &[(String, Option<String>)], name: &str) -> Option<Option<String>> {
    changes.iter().rev().find(|(key, _)| key == name).map(|(_, value)| value.clone())
}

#[test]
fn managed_claude_context_window_overrides_caller_settings_and_process_environment() {
    let mut descriptor = descriptor();
    descriptor.context_window_tokens = Some(272_000);
    let user = json("{\"theme\":\"dark\",\"env\":{\"DISABLE_COMPACT\":\"1\",\"CLAUDE_CODE_AUTO_COMPACT_WINDOW\":\"900000\",\"UNRELATED\":\"keep\"}}");
    let overlay: serde_json::Value =
        serde_json::from_slice(&write_overlay(&descriptor, &user, &conflicts())).unwrap();
    assert_eq!(overlay["theme"], "dark");
    assert_eq!(overlay["env"]["UNRELATED"], "keep");
    assert_eq!(overlay["env"]["CLAUDE_CODE_AUTO_COMPACT_WINDOW"], "272000");
    assert_eq!(overlay["env"]["CLAUDE_CODE_MAX_CONTEXT_TOKENS"], "272000");
    assert!(overlay["env"].get("DISABLE_COMPACT").is_none());
    let environment = launch_environment(&descriptor, &conflicts());
    assert_eq!(
        last(&environment, "CLAUDE_CODE_AUTO_COMPACT_WINDOW"),
        Some(Some("272000".to_owned()))
    );
    assert_eq!(last(&environment, "DISABLE_COMPACT"), Some(None));
}

#[test]
fn launches_replace_the_users_routing_and_credentials() {
    let user = json("{\"apiKeyHelper\":\"mine\",\"hooks\":[1],\"env\":{\"ANTHROPIC_API_KEY\":\"k\",\"ANTHROPIC_MODEL\":\"m\",\"CLAUDE_CODE_USE_VERTEX\":\"1\",\"ANTHROPIC_DEFAULT_OPUS_MODEL\":\"o\"}}");
    let overlay: serde_json::Value =
        serde_json::from_slice(&to_bytes(&launch_overlay(&descriptor(), &user, &conflicts())))
            .unwrap();
    assert_eq!(overlay["hooks"][0], 1);
    assert_eq!(overlay["apiKeyHelper"], "'/trusted/hiroute' 'grant' 'it'\\''s'");
    let env = overlay["env"].as_object().unwrap();
    assert_eq!(env["ANTHROPIC_API_KEY"], "");
    assert_eq!(env["ANTHROPIC_AUTH_TOKEN"], "");
    assert_eq!(env["ANTHROPIC_BASE_URL"], "http://127.0.0.1:4321");
    assert_eq!(env["ANTHROPIC_DEFAULT_OPUS_MODEL"], "hiroute-plan");
    assert_eq!(env["ANTHROPIC_DEFAULT_SONNET_MODEL"], "");
    assert!(!env.contains_key("ANTHROPIC_MODEL"));
    assert!(!env.contains_key("CLAUDE_CODE_USE_VERTEX"));
    let bare = to_bytes(&launch_overlay(&descriptor(), &json("[]"), &conflicts()));
    assert!(serde_json::from_slice::<serde_json::Value>(&bare).unwrap()["env"].is_object());
}

#[test]
fn launch_environments_clear_what_is_inherited() {
    let environment = launch_environment(&descriptor(), &conflicts());
    assert_eq!(last(&environment, "ANTHROPIC_API_KEY"), Some(Some(String::new())));
    assert_eq!(last(&environment, "ANTHROPIC_MODEL"), Some(None));
    assert_eq!(
        last(&environment, "ANTHROPIC_BASE_URL"),
        Some(Some("http://127.0.0.1:4321".to_owned()))
    );
    assert_eq!(
        last(&environment, "ANTHROPIC_DEFAULT_OPUS_MODEL"),
        Some(Some("hiroute-plan".to_owned()))
    );
    assert_eq!(last(&environment, "ANTHROPIC_DEFAULT_HAIKU_MODEL"), Some(None));
    assert_eq!(last(&environment, "DISABLE_COMPACT"), None);
    assert_eq!(
        launch_arguments("--settings", "/tmp/overlay.json", &texts(&["-p", "hi"])),
        texts(&["--settings", "/tmp/overlay.json", "-p", "hi"])
    );
}

#[test]
fn executables_are_launched_by_their_canonical_path() {
    let check = |canonical, target| verify_claude_executable("/trusted/agent", canonical, target);
    assert!(check(Some("/trusted/agent"), Some((true, 0o755))).is_ok());
    for (canonical, target) in [
        (None, Some((true, 0o755))),
        (Some("/other"), Some((true, 0o755))),
        (Some("/trusted/agent"), Some((false, 0o755))),
        (Some("/trusted/agent"), Some((true, 0o644))),
        (Some("/trusted/agent"), None),
    ] {
        assert_eq!(check(canonical, target), Err(ManagedClaudeProcessError::Unavailable));
    }
}

#[test]
fn routing_fields_have_their_variables() {
    for (name, field, wire) in [
        ("ANTHROPIC_API_KEY", AgentAuthRoutingFieldV1::AnthropicApiKey, "anthropic_api_key"),
        ("ANTHROPIC_AUTH_TOKEN", AgentAuthRoutingFieldV1::AnthropicAuthToken, "anthropic_auth_token"),
        ("ANTHROPIC_BASE_URL", AgentAuthRoutingFieldV1::AnthropicBaseUrl, "anthropic_base_url"),
        (
            "ANTHROPIC_CUSTOM_HEADERS",
            AgentAuthRoutingFieldV1::AnthropicCustomHeaders,
            "anthropic_custom_headers",
        ),
        ("ANTHROPIC_MODEL", AgentAuthRoutingFieldV1::AnthropicModel, "anthropic_model"),
        ("CLAUDE_CODE_USE_BEDROCK", AgentAuthRoutingFieldV1::Bedrock, "bedrock"),
        ("CLAUDE_CODE_USE_FOUNDRY", AgentAuthRoutingFieldV1::Foundry, "foundry"),
        ("CLAUDE_CODE_USE_VERTEX", AgentAuthRoutingFieldV1::Vertex, "vertex"),
    ] {
        assert_eq!(AgentAuthRoutingFieldV1::from_environment_name(name), Some(field));
        assert_eq!(field.wire_text(), wire);
    }
    assert_eq!(AgentAuthRoutingFieldV1::from_environment_name("OTHER"), None);
    assert_eq!(AgentAuthRoutingFieldV1::ApiKeyHelper.wire_text(), "api_key_helper");
}
