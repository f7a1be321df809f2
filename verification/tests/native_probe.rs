use hiroute::agents::claude_capabilities::{
    claude_plan_capability_preview, claude_requirements, ClaudeClientCapabilityPreviewV1,
    ClaudePlan, MessagesProfile,
};
use hiroute::agents::codex_catalog_plan::CapabilityVerdict;
use hiroute::agents::collaboration_probe::{ClaudeReply, CollaborationChallenge};
use hiroute::agents::discovery::{
    AgentCapability, AgentKindV1, CapabilityEvidence, CapabilityReason, CapabilityState,
};
use hiroute::agents::native_claude_probe::{
    check_arguments, check_settings, connection_text, contract_text, helper_script,
    CheckLook, ClaudeIngressEvidence,
    ClaudeNativeIngressProbe, EVIDENCE_LIFETIME_MS, MARKER, MODEL,
};
use hiroute::agents::native_probe_http::{
    answer_request, counting_response, hello_response, message_response, on_body, on_head,
    read_request, HeadStep, REQUEST_LIMIT,
};
use hiroute::digest::CanonicalDigest;

fn digest(text: &str) -> CanonicalDigest {
    CanonicalDigest::of_bytes(text.as_bytes())
}

fn evidence(capability: AgentCapability) -> CapabilityEvidence {
    CapabilityEvidence {
        capability,
        state: CapabilityState::Unknown,
        reason: Some(CapabilityReason::Other(3)),
        adapter_contract: "file".to_owned(),
        observed_at_unix_ms: 1,
        dependency_digest: digest("sample"),
    }
}

fn sample() -> (CanonicalDigest, Vec<CapabilityEvidence>) {
    (
        digest("sample"),
        vec![
            evidence(AgentCapability::Other(4)),
            evidence(AgentCapability::IngressAuthentication),
            evidence(AgentCapability::SkillLoading),
            evidence(AgentCapability::TrustedCliExecution),
        ],
    )
}

fn states(list: &[CapabilityEvidence]) -> Vec<bool> {
    list.iter().map(|item| item.state == CapabilityState::Proven).collect()
}

fn checked(collaboration: bool) -> ClaudeIngressEvidence {
    ClaudeIngressEvidence { binary: digest("binary"), observed_at: 77, collaboration }
}

#[test]
fn claude_evidence_is_bound_to_the_exact_binary() {
    let evidence = checked(false);
    let (mut identity, mut list) = sample();
    evidence.attach(0, Some(&digest("binary")), &mut identity, &mut list);
    assert_eq!(states(&list), vec![false, true, false, false]);
    assert_eq!(list[1].adapter_contract, contract_text());
    assert_eq!(list[1].observed_at_unix_ms, 77);
    assert_eq!(list[1].reason, None);
    let expected = format!(
        "[\"{}\",\"{}\",\"{}\",77]",
        contract_text(),
        digest("sample").as_str(),
        digest("binary").as_str()
    );
    assert_eq!(identity.as_str(), digest(&expected).as_str());
    assert!(list.iter().all(|item| item.dependency_digest.as_str() == identity.as_str()));
    let (mut identity, mut list) = sample();
    evidence.attach(0, Some(&digest("replaced")), &mut identity, &mut list);
    assert_eq!(states(&list), vec![false; 4]);
    assert_eq!(identity.as_str(), digest("sample").as_str());
}

#[test]
fn claude_collaboration_requires_a_fresh_exact_binary_check() {
    let binary = digest("binary");
    let (mut identity, mut native_auth_only) = sample();
    checked(false).attach_authentication(0, Some(&binary), &mut identity, &mut native_auth_only);
    assert_eq!(states(&native_auth_only), vec![false, true, false, false]);
    let collaboration = checked(true);
    let (mut identity, mut list) = sample();
    collaboration.attach_collaboration(0, Some(&binary), &mut identity, &mut list);
    assert_eq!(states(&list), vec![false, true, true, true]);
    let (mut identity, mut model_only) = sample();
    collaboration.attach_authentication(0, Some(&binary), &mut identity, &mut model_only);
    assert_eq!(states(&model_only), vec![false; 4]);
    collaboration.attach_collaboration(
        EVIDENCE_LIFETIME_MS + 1_000,
        Some(&binary),
        &mut identity,
        &mut model_only,
    );
    assert_eq!(states(&model_only), vec![false; 4]);
    collaboration.attach_collaboration(0, Some(&digest("new")), &mut identity, &mut model_only);
    assert_eq!(states(&model_only), vec![false; 4]);
    collaboration.attach_collaboration(0, None, &mut identity, &mut model_only);
    assert_eq!(states(&model_only), vec![false; 4]);
}

#[test]
fn installations_without_the_capability_are_left_alone() {
    let mut identity = digest("sample");
    let mut list = vec![evidence(AgentCapability::SkillLoading)];
    checked(true).attach(0, Some(&digest("binary")), &mut identity, &mut list);
    assert_eq!(states(&list), vec![false]);
    assert_eq!(identity.as_str(), digest("sample").as_str());
}

#[test]
fn checks_are_bounded_and_need_an_authenticated_message() {
    let mut check = ClaudeNativeIngressProbe::start();
    for _ in 0..8 {
        check.on_request().unwrap();
    }
    assert_eq!(check.on_request(), Err("request bound"));
    let running = |elapsed_ms, printed| CheckLook::Running { elapsed_ms, printed };
    assert_eq!(check.on_look(running(45_000, 131_072), true), Ok(false));
    assert_eq!(check.on_look(running(45_001, 0), true), Err("deadline"));
    assert_eq!(check.on_look(running(0, 131_073), true), Err("output bound"));
    let ended = CheckLook::Ended { success: true };
    assert_eq!(check.on_look(ended, true), Err("authenticated native completion"));
    check.on_served(true);
    check.on_served(false);
    assert_eq!(check.on_look(ended, true), Ok(true));
    assert_eq!(check.on_look(ended, false), Err("authenticated native completion"));
    assert_eq!(
        check.on_look(CheckLook::Ended { success: false }, true),
        Err("authenticated native completion")
    );
}

#[test]
fn checks_run_with_settings_of_their_own() {
    let agent = AgentKindV1::ClaudeCode.command_text();
    assert_eq!(contract_text(), format!("hiroute.{agent}-native-messages/v1"));
    assert_eq!(connection_text(), format!("agent-connection/{agent}/native-probe"));
    let script = helper_script("verb");
    assert_eq!(
        script,
        format!("#!/bin/sh\n[ \"$1\" = 'verb' ] || exit 2\n[ \"$2\" = '{}' ] || exit 3\nprintf '%s\\n' '{MARKER}'\n", connection_text())
    );
    let settings: serde_json::Value =
        serde_json::from_slice(&check_settings("/h", "verb", "http://127.0.0.1:1")).unwrap();
    assert_eq!(settings["apiKeyHelper"], format!("'/h' 'verb' '{}'", connection_text()));
    assert_eq!(settings["env"]["ANTHROPIC_BASE_URL"], "http://127.0.0.1:1");
    assert_eq!(settings["env"]["ANTHROPIC_MODEL"], MODEL);
    let plain = check_arguments("/s.json", None);
    assert_eq!(plain[6], "/s.json");
    assert_eq!(plain.last().unwrap(), "Reply with OK only. Do not use tools.");
    let collaboration = check_arguments("/s.json", Some("/plugin"));
    assert_eq!(collaboration[8], "Bash");
    assert_eq!(collaboration.last().unwrap(), "/hiroute-native-probe:hiroute-probe");
}

fn head(method: &str, path: &str, headers: &[&str]) -> Vec<u8> {
    let mut text = format!("{method} {path} HTTP/1.1\r\n");
    for header in headers {
        text.push_str(header);
        text.push_str("\r\n");
    }
    text.push_str("\r\n");
    text.into_bytes()
}

#[test]
fn requests_are_read_head_first() {
    let good = ["Authorization: Bearer key", "Content-Length: 12"];
    let bytes = head("POST", "/v1/messages?beta=true", &good);
    assert_eq!(
        on_head(&bytes, 0, "key"),
        Ok(HeadStep::Body { start: bytes.len(), length: 12, counting: false })
    );
    assert_eq!(on_head(&bytes[..bytes.len() - 1], 0, "key"), Ok(HeadStep::More));
    let counting = head("POST", "/v1/messages/count_tokens", &["content-LENGTH:  3 ", "authorization:Bearer key"]);
    assert_eq!(
        on_head(&counting, 2_000, "key"),
        Ok(HeadStep::Body { start: counting.len(), length: 3, counting: true })
    );
    assert_eq!(on_head(&head("HEAD", "/api/hello", &[]), 0, "key"), Ok(HeadStep::Hello));
    assert_eq!(on_head(&bytes, 2_001, "key"), Err("request bound"));
    assert_eq!(on_head(&vec![0; REQUEST_LIMIT + 1], 0, "key"), Err("request bound"));
}

#[test]
fn wrong_requests_say_what_is_wrong() {
    for (bytes, context) in [
        (head("GET", "/v1/messages", &[]), "method"),
        (head("POST", "/v1/other", &[]), "path"),
        (head("POST", "/v1/messages", &["no colon"]), "header"),
        (head("POST", "/v1/messages", &["Authorization: Basic x"]), "bearer"),
        (
            head("POST", "/v1/messages", &["Authorization: Bearer key", "authorization: Bearer key"]),
            "duplicate auth",
        ),
        (head("POST", "/v1/messages", &["Content-Length: x"]), "length"),
        (
            head("POST", "/v1/messages", &["Content-Length: 1", "Content-Length: 1"]),
            "duplicate length",
        ),
        (head("POST", "/v1/messages", &["Content-Length: 1"]), "wrong authentication"),
        (
            head("POST", "/v1/messages", &["Authorization: Bearer other", "Content-Length: 1"]),
            "wrong authentication",
        ),
        (head("POST", "/v1/messages", &["Authorization: Bearer key"]), "length"),
        (
            head("POST", "/v1/messages", &["Authorization: Bearer key", "Content-Length: 131073"]),
            "length",
        ),
        (b"\r\n\r\n".to_vec(), "request"),
        (b" \r\n\r\n".to_vec(), "method"),
        (b"POST\r\n\r\n".to_vec(), "path"),
        (b"\xff\r\n\r\n".to_vec(), "encoding"),
    ] {
        assert_eq!(on_head(&bytes, 0, "key"), Err(context));
    }
    assert_eq!(on_body(10, 5, 5, 9_999), Ok(true));
    assert_eq!(on_body(9, 5, 5, 2_000), Ok(false));
    assert_eq!(on_body(9, 5, 5, 2_001), Err("body deadline"));
    assert!(read_request(b"{\"model\":\"m\"}", "m").is_ok());
    assert_eq!(read_request(b"{\"model\":\"n\"}", "m").unwrap_err(), "wrong model");
    assert_eq!(read_request(b"{", "m").unwrap_err(), "json");
}

fn split_response(bytes: Vec<u8>) -> (String, String) {
    let text = String::from_utf8(bytes).unwrap();
    let (head, body) = text.split_once("\r\n\r\n").unwrap();
    assert!(head.contains(&format!("Content-Length: {}\r\n", body.len())));
    (head.to_owned(), body.to_owned())
}

#[test]
fn answers_have_the_length_they_tell() {
    let (_, body) = split_response(counting_response());
    assert_eq!(body, "{\"input_tokens\":1}");
    let (head, body) = split_response(message_response("m", &ClaudeReply::Done));
    assert!(head.starts_with("HTTP/1.1 200 OK\r\nContent-Type: text/event-stream"));
    let names: Vec<&str> =
        body.lines().filter_map(|line| line.strip_prefix("event: ")).collect();
    assert_eq!(
        names,
        vec![
            "message_start",
            "content_block_start",
            "content_block_delta",
            "content_block_stop",
            "message_delta",
            "message_stop",
        ]
    );
    let events: Vec<serde_json::Value> = body
        .lines()
        .filter_map(|line| line.strip_prefix("data: "))
        .map(|data| serde_json::from_str(data).unwrap())
        .collect();
    assert_eq!(events[0]["message"]["model"], "m");
    assert_eq!(events[2]["delta"]["text"], "OK");
    assert_eq!(events[4]["delta"]["stop_reason"], "end_turn");
    assert!(String::from_utf8(hello_response()).unwrap().starts_with("HTTP/1.1 404 Not Found\r\n"));
}

#[test]
fn tool_calls_carry_their_command() {
    let reply = ClaudeReply::Call { command: "cat \"x\"".to_owned() };
    let (_, body) = split_response(message_response("m", &reply));
    let events: Vec<serde_json::Value> = body
        .lines()
        .filter_map(|line| line.strip_prefix("data: "))
        .map(|data| serde_json::from_str(data).unwrap())
        .collect();
    assert_eq!(events[1]["content_block"]["id"], "toolu_hiroute_probe");
    let input: serde_json::Value =
        serde_json::from_str(events[2]["delta"]["partial_json"].as_str().unwrap()).unwrap();
    assert_eq!(input["command"], "cat \"x\"");
    assert_eq!(input["timeout"], 10000);
    assert_eq!(events[4]["delta"]["stop_reason"], "tool_use");
}

fn plan(candidates: Vec<MessagesProfile>) -> ClaudePlan {
    ClaudePlan {
        is_valid: true,
        candidates,
        plan_window: Some(272_000),
        context_window: Some(272_000),
    }
}

fn reason(plan: &ClaudePlan) -> &'static str {
    match claude_plan_capability_preview(plan) {
        ClaudeClientCapabilityPreviewV1::Unavailable { reason } => reason,
        other => panic!("{other:?}"),
    }
}

#[test]
fn claude_capability_preview_rejects_missing_tools_and_streaming_in_any_candidate() {
    let supported = MessagesProfile::Answers(CapabilityVerdict::Supported);
    assert!(matches!(
        claude_plan_capability_preview(&plan(vec![supported, supported])),
        ClaudeClientCapabilityPreviewV1::Available { context_window: 272_000, plan_window: 272_000 }
    ));
    let asked = claude_requirements();
    assert!(asked.function_tools && asked.streaming && !asked.mid_conversation_instructions);
    for refused in [
        MessagesProfile::Answers(CapabilityVerdict::Unsupported),
        MessagesProfile::Answers(CapabilityVerdict::InstructionsUnsupported),
        MessagesProfile::NotExecutable,
    ] {
        assert_eq!(reason(&plan(vec![supported, refused])), "request_capabilities");
    }
    assert_eq!(reason(&plan(vec![supported, MessagesProfile::Missing])), "messages_protocol");
    let mut small = plan(vec![supported]);
    small.plan_window = Some(99_999);
    small.context_window = None;
    assert_eq!(reason(&small), "context_window_below_minimum");
    small.plan_window = None;
    assert_eq!(reason(&small), "context_window");
    small.is_valid = false;
    assert_eq!(reason(&small), "invalid_compiled_plan");
}

#[test]
fn served_requests_are_counted_or_answered() {
    let body = format!("{{\"model\":\"{MODEL}\",\"tools\":[{{\"name\":\"Bash\"}}],\"x\":\"hiroute-contents-00ff\"}}");
    let mut none = None;
    let counted = answer_request(body.as_bytes(), MODEL, true, &mut none).unwrap();
    assert_eq!(counted.bytes, counting_response());
    assert!(!counted.authenticated);
    let done = answer_request(body.as_bytes(), MODEL, false, &mut none).unwrap();
    assert_eq!(done.bytes, message_response(MODEL, &ClaudeReply::Done));
    assert!(done.authenticated);
    assert!(none.is_none());
    assert_eq!(answer_request(b"{", MODEL, true, &mut none).unwrap_err(), "json");
    assert_eq!(answer_request(b"{}", MODEL, false, &mut none).unwrap_err(), "wrong model");

    let printed = "{\"status\":\"succeeded\",\"data\":{\"commands\":[{\"command_id\":\"schema.list\"}]}}";
    let asked = CollaborationChallenge::prepare(&[0, 255], "/s", "/c", printed, true).unwrap();
    let command = asked.command.clone();
    let mut challenge = Some(asked);
    let counted = answer_request(body.as_bytes(), MODEL, true, &mut challenge).unwrap();
    assert!(!counted.authenticated);
    assert!(!challenge.as_ref().unwrap().issued);
    let call = answer_request(body.as_bytes(), MODEL, false, &mut challenge).unwrap();
    assert_eq!(call.bytes, message_response(MODEL, &ClaudeReply::Call { command }));
    assert!(call.authenticated);
    assert!(challenge.as_ref().unwrap().issued);
    assert_eq!(
        answer_request(body.as_bytes(), MODEL, false, &mut challenge).unwrap_err(),
        "native Skill read and trusted CLI execution"
    );
}
