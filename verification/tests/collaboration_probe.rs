use hiroute::agents::collaboration_probe::{
    contains_bytes, skill_text, ClaudeReply, CodexReply, CollaborationChallenge,
};
use hiroute::json::{parse_json, to_bytes, Json};

fn json(text: &str) -> Json {
    parse_json(text.as_bytes()).unwrap()
}

fn challenge() -> CollaborationChallenge {
    CollaborationChallenge {
        discovery: "discovery-nonce".into(),
        contents: "contents-nonce".into(),
        command: "/trusted/hiroute schema list --output json".into(),
        expected_cli: "CLI-contract-output".into(),
        issued: false,
        completed: false,
    }
}

#[test]
fn collaboration_requires_native_discovery_and_correlated_content_and_cli_output() {
    let mut check = challenge();
    assert!(check.reply(&json("{\"tools\":[{\"name\":\"exec_command\"}]}")).is_err());
    let call = check
        .reply(&json("{\"input\":\"discovery-nonce\", \"tools\":[{\"name\":\"exec_command\"}]}"))
        .unwrap();
    let output: serde_json::Value = serde_json::from_slice(&to_bytes(&call.output())).unwrap();
    assert_eq!(output[0]["call_id"], "call_hiroute_probe");
    assert_eq!(output[0]["name"], "exec_command");
    let arguments: serde_json::Value =
        serde_json::from_str(output[0]["arguments"].as_str().unwrap()).unwrap();
    assert_eq!(arguments["cmd"], "/trusted/hiroute schema list --output json");
    assert_eq!(arguments["max_output_tokens"], 2000);
    assert!(!check.complete());
    for (id, output) in [
        ("wrong-call", "contents-nonce CLI-contract-output"),
        ("call_hiroute_probe", "contents-nonce"),
        ("call_hiroute_probe", "CLI-contract-output"),
    ] {
        let body = format!("{{\"input\":[{{\"type\":\"function_call_output\", \"call_id\":\"{id}\", \"output\":\"{output}\"}}]}}");
        assert!(check.reply(&json(&body)).is_err());
        assert!(!check.complete());
    }
    check
        .reply(&json("{\"input\":[{\"type\":\"function_call_output\", \"call_id\":\"call_hiroute_probe\", \"output\":\"contents-nonce CLI-contract-output\"}]}"))
        .unwrap();
    assert!(check.complete());
}

fn result(id: &str, output: &str, extra: &str) -> Json {
    let output = serde_json::to_string(output).unwrap();
    json(&format!("{{\"messages\":[{{\"content\":[{{\"type\":\"tool_result\", \"tool_use_id\":\"{id}\"{extra}, \"content\":{output}}}]}}]}}"))
}

#[test]
fn claude_collaboration_requires_discovered_skill_and_correlated_tool_result() {
    let mut check = challenge();
    check.expected_cli = r#"{"status":"succeeded"}"#.into();
    assert!(check.reply_claude(&json("{\"tools\":[{\"name\":\"Bash\"}]}")).is_err());
    let tool = check
        .reply_claude(&json("{\"messages\":[{\"content\":\"contents-nonce\"}], \"tools\":[{\"name\":\"Bash\"}]}"))
        .unwrap();
    match &tool {
        ClaudeReply::Call { command } => {
            assert_eq!(command, "/trusted/hiroute schema list --output json")
        }
        other => panic!("{other:?}"),
    }
    for (id, output) in [
        ("wrong-tool", "contents-nonce {\"status\":\"succeeded\"}"),
        ("toolu_hiroute_probe", "contents-nonce"),
        ("toolu_hiroute_probe", "{\"status\":\"succeeded\"}"),
    ] {
        assert!(check.reply_claude(&result(id, output, "")).is_err());
        assert!(!check.complete());
    }
    assert!(check
        .reply_claude(&result(
            "toolu_hiroute_probe",
            "contents-nonce {\"status\":\"succeeded\"}",
            ", \"is_error\":true"
        ))
        .is_err());
    assert!(!check.complete());
    let answer = check
        .reply_claude(&result(
            "toolu_hiroute_probe",
            "contents-nonce {\"status\":\"succeeded\"}",
            "",
        ))
        .unwrap();
    assert!(matches!(answer, ClaudeReply::Done));
    assert!(check.complete());
}

#[test]
fn results_in_parts_are_read_line_by_line() {
    let mut check = challenge();
    check.issued = true;
    check
        .reply_claude(&json("{\"messages\":[{\"content\":[{\"type\":\"tool_result\",\"tool_use_id\":\"toolu_hiroute_probe\",\"content\":[{\"text\":\"contents-nonce\"},{\"image\":1},{\"text\":\"CLI-contract-output\"}]}]}]}"))
        .unwrap();
    assert!(check.complete());
}

#[test]
fn shell_tools_take_their_own_arguments() {
    let mut check = challenge();
    let call = check
        .reply(&json("{\"input\":\"discovery-nonce\", \"tools\":[{\"name\":\"other\"},{\"name\":\"shell_command\"}]}"))
        .unwrap();
    match call {
        CodexReply::Call { name, arguments } => {
            assert_eq!(name, "shell_command");
            assert_eq!(
                String::from_utf8(to_bytes(&arguments)).unwrap(),
                "{\"command\":\"/trusted/hiroute schema list --output json\",\"timeout_ms\":10000}"
            );
        }
        other => panic!("{other:?}"),
    }
    let mut check = challenge();
    assert_eq!(
        check.reply(&json("{\"input\":\"discovery-nonce\"}")).unwrap_err(),
        "native tool declarations"
    );
    assert_eq!(
        check.reply(&json("{\"input\":\"discovery-nonce\",\"tools\":[]}")).unwrap_err(),
        "native read-only shell tool"
    );
}

#[test]
fn challenges_start_from_the_command_contract() {
    let printed = " {\"status\":\"succeeded\",\"data\":{\"commands\":[{\"command_id\":\"schema.list\"}]}}\n";
    let check =
        CollaborationChallenge::prepare(&[0, 255], "/skill/it's.md", "/bin/hiroute", printed, true)
            .unwrap();
    assert_eq!(check.discovery, "hiroute-discovery-00ff");
    assert_eq!(check.contents, "hiroute-contents-00ff");
    assert_eq!(
        check.command,
        "/bin/cat '/skill/it'\\''s.md'; '/bin/hiroute' schema list --output json"
    );
    assert_eq!(check.expected_cli, printed.trim());
    assert_eq!(
        CollaborationChallenge::prepare(&[1], "s", "c", printed, false).unwrap_err(),
        "trusted CLI contract"
    );
    assert_eq!(
        CollaborationChallenge::prepare(&[1], "s", "c", "{\"status\":\"succeeded\"}", true)
            .unwrap_err(),
        "trusted CLI contract"
    );
    assert_eq!(
        CollaborationChallenge::prepare(&[1], "s", "c", "no json", true).unwrap_err(),
        "CLI contract"
    );
    let skill = skill_text("d", "c");
    assert!(skill.starts_with("---\nname: hiroute-probe\ndescription: Read-only HiRoute compatibility check d\n---\n"));
    assert!(skill.ends_with("Content receipt: c\n"));
}

#[test]
fn bytes_occur_where_they_stand() {
    assert!(contains_bytes(b"abcabd", b"abd"));
    assert!(contains_bytes(b"abc", b""));
    assert!(!contains_bytes(b"abc", b"abcd"));
    assert!(!contains_bytes(b"abcab", b"abd"));
}
