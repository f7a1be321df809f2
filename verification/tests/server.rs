use hiroute::json::{parse_json, Json};
use hiroute::server::{
    check_listener, contains_forbidden_case_key, oracle_reply, publication_payload,
    GatewayLaunchIdentity, GatewayLauncherError, LaunchFixtureEnvelope, ProviderBinding,
    PublicationSnapshot, LAUNCH_FIXTURE_SCHEMA, NOT_IMPLEMENTED_BODY, NOT_IMPLEMENTED_CODE,
    PUBLICATION_SCHEMA, READY_SCHEMA,
};

#[test]
fn not_implemented_body_is_exact_typed_json() {
    let value: serde_json::Value = serde_json::from_slice(NOT_IMPLEMENTED_BODY.as_bytes()).unwrap();
    assert_eq!(value["code"], NOT_IMPLEMENTED_CODE);
}

#[test]
fn launcher_identity_accepts_only_canonical_sha256() {
    assert!(GatewayLaunchIdentity::default().executable_sha256().is_none());
    let digest = format!("sha256:{}", "a".repeat(64));
    assert!(GatewayLaunchIdentity::from_executable_sha256(digest).is_ok());
    for invalid in [
        format!("sha256:{}", "A".repeat(64)),
        format!("sha256:{}", "a".repeat(63)),
        "a".repeat(64),
    ] {
        assert!(matches!(
            GatewayLaunchIdentity::from_executable_sha256(invalid),
            Err(GatewayLauncherError::InvalidExecutableDigest)
        ));
    }
}

#[test]
fn launcher_identity_reads_the_environment() {
    assert!(GatewayLaunchIdentity::from_environment(None).unwrap().executable_sha256().is_none());
    assert!(GatewayLaunchIdentity::from_environment(Some(None)).is_err());
    let digest = format!("sha256:{}", "0".repeat(64));
    let identity = GatewayLaunchIdentity::from_environment(Some(Some(digest.clone()))).unwrap();
    assert_eq!(identity.executable_sha256(), Some(digest.as_str()));
}

fn json(text: &str) -> Json {
    parse_json(text.as_bytes()).unwrap()
}

fn publication(model_catalog: &str, payload_digest: &str) -> PublicationSnapshot {
    PublicationSnapshot {
        schema_version: PUBLICATION_SCHEMA.to_owned(),
        issuer: "issuer".to_owned(),
        subject: "subject".to_owned(),
        policy_revision: "1".to_owned(),
        epoch: 1,
        revision: "r1".to_owned(),
        payload_digest: payload_digest.to_owned(),
        protocol_routes: vec![json("{}")],
        alias_index: vec![json("{}")],
        grant_index: vec![json("{}")],
        agent_plans: vec![json("{}")],
        adapter_catalog: vec![json("{}")],
        model_catalog: json(model_catalog),
    }
}

fn digest_of(publication: &PublicationSnapshot) -> String {
    hiroute::json::canonical_digest(&publication_payload(publication)).as_str().to_owned()
}

fn fixture(model_catalog: &str) -> LaunchFixtureEnvelope {
    let digest = digest_of(&publication(model_catalog, ""));
    LaunchFixtureEnvelope {
        schema_version: LAUNCH_FIXTURE_SCHEMA.to_owned(),
        oracle_version: "p0-gateway-oracle-v1".to_owned(),
        contract_digest: format!("sha256:{}", "b".repeat(64)),
        publication: publication(model_catalog, &digest),
        provider_bindings: vec![ProviderBinding {
            binding_ref: "binding".to_owned(),
            credential_ref: "credential".to_owned(),
            endpoint: "http://127.0.0.1:9000/v1".to_owned(),
            protocol: "messages".to_owned(),
        }],
        client_grants: vec![("grant".to_owned(), "x".to_owned())],
        credentials: vec![("credential".to_owned(), "y".to_owned())],
        observation_directory: "/run/observation".to_owned(),
        observation_run_nonce: "n".repeat(32),
        observation_terminal_receipt: "/run/observation/terminal".to_owned(),
        readiness_nonce: "m".repeat(32),
        readiness_path: "/run/ready".to_owned(),
    }
}

#[test]
fn publication_digests_are_over_sorted_compact_documents() {
    let text = "{\"adapter_catalog\":[{}],\"agent_plans\":[{}],\"alias_index\":[{}],\"authority\":{\"issuer\":\"issuer\",\"policy_revision\":\"1\",\"subject\":\"subject\"},\"epoch\":1,\"grant_index\":[{}],\"model_catalog\":{},\"protocol_routes\":[{}],\"revision\":\"r1\",\"schema_version\":\"hiroute.gateway.publication-snapshot/v1\"}";
    let expected = hiroute::digest::CanonicalDigest::of_bytes(text.as_bytes());
    assert_eq!(digest_of(&publication("{}", "")), expected.as_str());
}

#[test]
fn complete_fixtures_are_accepted() {
    assert!(fixture("{\"models\":[]}").validate().is_ok());
}

#[test]
fn incomplete_fixtures_are_refused() {
    for change in 0..10 {
        let mut broken = fixture("{}");
        match change {
            0 => broken.schema_version = "other".to_owned(),
            1 => broken.contract_digest = "sha256:1".to_owned(),
            2 => broken.publication.epoch = 0,
            3 => broken.publication.issuer = String::new(),
            4 => broken.readiness_nonce = "short".to_owned(),
            5 => broken.readiness_path = "relative".to_owned(),
            6 => broken.provider_bindings[0].credential_ref = "unknown".to_owned(),
            7 => broken.provider_bindings[0].endpoint = "http://10.0.0.1:1".to_owned(),
            8 => broken.provider_bindings[0].protocol = "other".to_owned(),
            _ => broken.publication.model_catalog = json("[]"),
        }
        assert!(matches!(broken.validate(), Err(GatewayLauncherError::FixtureEnvelope)));
    }
}

#[test]
fn publications_keep_their_digest_and_name_no_test() {
    let mut drifted = fixture("{}");
    drifted.publication.revision = "r2".to_owned();
    assert!(matches!(drifted.validate(), Err(GatewayLauncherError::PublicationDigest)));
    assert!(matches!(
        fixture("{\"a\":[{\"case_id\":1}]}").validate(),
        Err(GatewayLauncherError::PublicationDigest)
    ));
    assert!(contains_forbidden_case_key(&json("{\"a\":[{\"cases\":[]}]}")));
    assert!(contains_forbidden_case_key(&json("{\"case\":1}")));
    assert!(!contains_forbidden_case_key(&json("{\"a\":[\"case\",{\"b\":\"cases\"}]}")));
}

#[test]
fn oracle_runs_answer_readiness_to_the_nonce_only() {
    let identity = GatewayLaunchIdentity::default();
    let ready = oracle_reply(
        "GET",
        "/_hiroute/oracle-ready/nonce",
        Some("nonce"),
        "nonce",
        42,
        "127.0.0.1:80",
        &identity,
    );
    assert_eq!(ready.status, 200);
    assert!(ready.is_ready);
    assert_eq!(
        String::from_utf8(ready.body).unwrap(),
        format!("{{\"schema_version\":\"{READY_SCHEMA}\",\"run_nonce\":\"nonce\",\"process_id\":42,\"listen_address\":\"127.0.0.1:80\",\"executable_sha256\":null}}")
    );
    for (method, path, header) in [
        ("POST", "/_hiroute/oracle-ready/nonce", Some("nonce")),
        ("GET", "/_hiroute/oracle-ready/other", Some("nonce")),
        ("GET", "/_hiroute/oracle-ready/nonce", Some("other")),
        ("GET", "/_hiroute/oracle-ready/nonce", None),
    ] {
        let refused = oracle_reply(method, path, header, "nonce", 42, "127.0.0.1:80", &identity);
        assert_eq!(refused.status, 501);
        assert!(!refused.is_ready);
        assert_eq!(refused.body, NOT_IMPLEMENTED_BODY.as_bytes());
    }
}

#[test]
fn ready_documents_tell_the_executable() {
    let digest = format!("sha256:{}", "c".repeat(64));
    let identity = GatewayLaunchIdentity::from_executable_sha256(digest.clone()).unwrap();
    let body = hiroute::server::ready_document("n\"", 7, "[::1]:8", &identity);
    let value: serde_json::Value = serde_json::from_slice(&body).unwrap();
    assert_eq!(value["run_nonce"], "n\"");
    assert_eq!(value["process_id"], 7);
    assert_eq!(value["executable_sha256"], digest.as_str());
}

#[test]
fn oracle_listeners_use_reserved_loopback_addresses() {
    assert!(check_listener("127.0.0.1:80", true, 80).is_ok());
    for (loopback, port) in [(false, 80), (true, 0)] {
        let error = check_listener("1.2.3.4:5", loopback, port).unwrap_err();
        assert_eq!(
            error.message(),
            "gateway listener must use a reserved nonzero IPv4 address, got 1.2.3.4:5"
        );
    }
}

#[test]
fn launcher_errors_say_what_failed() {
    let detail = || "x".to_owned();
    for (error, message) in [
        (
            GatewayLauncherError::UnsupportedRole(detail()),
            "hirouted supports only --role gateway, not x",
        ),
        (GatewayLauncherError::Publication(detail()), "x"),
        (
            GatewayLauncherError::ProductionPublicationIo(detail()),
            "cannot read production gateway publication: x",
        ),
        (
            GatewayLauncherError::ProductionPublicationJson(detail()),
            "production gateway publication is invalid JSON: x",
        ),
        (
            GatewayLauncherError::RuntimeAuthority(detail()),
            "production runtime authority configuration is invalid: x",
        ),
        (
            GatewayLauncherError::ContinuationKeyUnavailable,
            "Tool continuation process authority key is unavailable",
        ),
        (GatewayLauncherError::TestControl(detail()), "x"),
        (GatewayLauncherError::FixtureIo(detail()), "cannot read gateway launch fixture: x"),
        (
            GatewayLauncherError::FixtureJson(detail()),
            "gateway launch fixture is invalid JSON: x",
        ),
        (
            GatewayLauncherError::FixtureEnvelope,
            "gateway launch fixture envelope is incomplete",
        ),
        (
            GatewayLauncherError::PublicationDigest,
            "gateway publication digest or SUT-visible case isolation failed",
        ),
        (GatewayLauncherError::Listener(detail()), "gateway listener failed: x"),
        (
            GatewayLauncherError::ReadinessIo(detail()),
            "gateway readiness handshake failed: x",
        ),
        (
            GatewayLauncherError::InvalidExecutableDigest,
            "HIROUTE_LAUNCHER_EXECUTABLE_SHA256 must be a lowercase sha256:<64 hex characters> digest",
        ),
    ] {
        assert_eq!(error.message(), message);
    }
}
