use hiroute::agents::codex_layers::{sample_codex_configuration, CodexConfigurationScope};
use hiroute::agents::codex_sources::{
    codex_source_draft, read_selected_codex_source, AgentSourceCandidate, CodexSourceDraft,
    DiscoveredAuthSource, SourceAuth,
};
use hiroute::agents::filesystem::AgentFilesystemScanError;
use hiroute::runtime::facts::IngressProtocol;

fn draft(content: &str) -> Result<Option<CodexSourceDraft>, AgentFilesystemScanError> {
    let scope = CodexConfigurationScope::user_file("/home/me/.codex/config.toml".to_owned());
    let reads = vec![Ok(Some(content.as_bytes().to_vec()))];
    codex_source_draft(&sample_codex_configuration(&scope, &reads).unwrap())
}

fn provider(settings: &str) -> String {
    format!("model = 'm'\nmodel_provider = 'p'\n[model_providers.p]\nbase_url = 'https://p.example/v1'\n{settings}")
}

#[test]
fn sources_tell_how_they_authenticate() {
    for (settings, expected) in [
        ("", DiscoveredAuthSource::Missing),
        ("env_key = 'KEY'\n", DiscoveredAuthSource::EnvironmentKey),
        ("experimental_bearer_token = 'token'\n", DiscoveredAuthSource::InlineToken),
        ("requires_openai_auth = true\n", DiscoveredAuthSource::NativeSessionNeedsConfirmation),
        (
            "env_key = 'KEY'\nexperimental_bearer_token = 'token'\n",
            DiscoveredAuthSource::Ambiguous,
        ),
    ] {
        let found = draft(&provider(settings)).unwrap().unwrap();
        assert_eq!(found.authentication, expected, "{settings}");
        assert_eq!(found.endpoint, "https://p.example/v1");
        assert_eq!(found.model.as_deref(), Some("m"));
        assert!(found.candidate_ref.starts_with("source/codex/sha256:"));
        assert!(found.context_ref.starts_with("agent-context/sha256:"));
    }
}

#[test]
fn native_sources_need_no_provider() {
    let native = draft("").unwrap().unwrap();
    assert_eq!(native.endpoint, "https://api.openai.com/v1");
    assert_eq!(native.authentication, DiscoveredAuthSource::NativeSessionNeedsConfirmation);
    assert!(native.model.is_none());
    assert!(draft("model_provider = 'absent'\n").unwrap().is_none());
    assert!(draft(&provider("env_key = 7\n")).is_err());
}

#[test]
fn credentials_are_read_of_the_selected_source_alone() {
    let found = || draft(&provider("env_key = 'KEY'\n")).unwrap().unwrap();
    let shown = || found().candidate(Some("https://p.example".to_owned()));
    let selected = shown();
    let secret = || Some("secret".to_owned());
    let read = read_selected_codex_source(
        Some((found(), shown())),
        &selected,
        secret(),
        true,
        &Ok(Some(shown())),
    )
    .unwrap();
    assert_eq!(read.credential.as_deref(), Some("secret"));
    assert_eq!(read.endpoint, "https://p.example/v1");
    assert!(matches!(found().auth, SourceAuth::Environment(key) if key == "KEY"));
    assert!(!format!("{selected:?}").contains("secret"));
    for (first, environment, accepted, again, expected) in [
        (None, secret(), true, Ok(Some(shown())), AgentFilesystemScanError::SourceChanged),
        (
            Some((found(), found().candidate(None))),
            secret(),
            true,
            Ok(Some(shown())),
            AgentFilesystemScanError::SourceChanged,
        ),
        (
            Some((found(), shown())),
            None,
            true,
            Ok(Some(shown())),
            AgentFilesystemScanError::SourceUnavailable,
        ),
        (
            Some((found(), shown())),
            secret(),
            false,
            Ok(Some(shown())),
            AgentFilesystemScanError::SourceUnavailable,
        ),
        (
            Some((found(), shown())),
            secret(),
            true,
            Ok(None),
            AgentFilesystemScanError::SourceChanged,
        ),
        (
            Some((found(), shown())),
            secret(),
            true,
            Err(AgentFilesystemScanError::Io),
            AgentFilesystemScanError::Io,
        ),
    ] {
        assert_eq!(
            read_selected_codex_source(first, &selected, environment, accepted, &again).err(),
            Some(expected)
        );
    }
    assert_eq!(selected.native_ingress, IngressProtocol::Responses);
    for native_ingress in [IngressProtocol::Messages, IngressProtocol::ChatCompletions] {
        let other = AgentSourceCandidate { native_ingress, ..shown() };
        assert!(!other.equals(&selected));
        assert_eq!(
            read_selected_codex_source(
                Some((found(), shown())),
                &other,
                secret(),
                true,
                &Ok(Some(shown())),
            )
            .err(),
            Some(AgentFilesystemScanError::SourceChanged)
        );
    }
    let other = draft(&provider("env_key = 'OTHER'\n")).unwrap().unwrap().candidate(None);
    assert!(!other.equals(&selected));
    assert!(shown().equals(&selected));
}
