use hiroute::agents::claude_files::{
    display_path, metadata_revision, on_harden, on_hardened, on_look, on_open, on_read,
    permission_hardening_required, permission_revision, revision_from_digest, same_file_identity,
    source_ref, stable_identity_from_metadata, validate_config_file, validate_hardening_finding,
    validate_system_config_metadata, FileFacts, HardeningStep, PermissionHardeningOutcomeV1,
    ReadStep, MAX_FILE_BYTES,
};
use hiroute::agents::claude_scan::{
    available_model_surfaces, codex_engine_target, AgentFilesystemLayoutV1, AgentModelSurfaceV2,
};
use hiroute::agents::discovery::{
    AgentDiscoveryOutcomeV1, AgentKindV1, AgentProfileFacts, AgentReportOnlyReasonV1, ConfigLayerV1,
};
use hiroute::agents::executable::{
    check_runnable, located_codex_engine, on_candidate, CandidateLook, ProbeFailure,
};
use hiroute::agents::filesystem::{probe_report, scan_codex, AgentFilesystemScanError};
use hiroute::digest::CanonicalDigest;

const USER: u32 = 1000;

fn facts(mode: u32) -> FileFacts {
    FileFacts {
        is_symlink: false,
        is_file: true,
        dev: 1,
        ino: 2,
        uid: USER,
        gid: 3,
        nlink: 1,
        len: 10,
        mode: 0o100000 | mode,
        mtime: 4,
        mtime_nsec: 5,
        ctime: 6,
        ctime_nsec: 7,
    }
}

fn home() -> String {
    format!("/home/me/.{}/settings.json", AgentKindV1::ClaudeCode.command_text())
}

#[test]
fn group_writable_codex_desktop_engine_is_located_without_cli_substitution() {
    let layout = AgentFilesystemLayoutV1 {
        codex_executable: "/root/missing-path-cli".to_owned(),
        codex_desktop_executable: Some("/root/Applications/codex-desktop-engine".to_owned()),
        claude_executable: "/root/bin/agent".to_owned(),
        codex_user_config: "/root/home/config.toml".to_owned(),
        claude_launch_settings: None,
        claude_project_settings: vec![],
        claude_user_settings: "/root/home/settings.json".to_owned(),
        claude_managed_settings: vec![],
        process_environment: vec![],
        process_environment_presence: vec![],
    };
    let desktop = codex_engine_target(&layout, AgentModelSurfaceV2::CodexDesktop);
    assert_eq!(desktop.as_deref(), Some("/root/Applications/codex-desktop-engine"));
    assert_eq!(
        codex_engine_target(&layout, AgentModelSurfaceV2::CodexCli).as_deref(),
        Some("/root/missing-path-cli")
    );
    assert!(check_runnable(Some((true, 0o100755))).is_ok());
    let engine = located_codex_engine(&vec![Ok(desktop), Ok(None)]);
    let profiles = vec![AgentProfileFacts { is_valid: true, owned_paths: vec![] }];
    let result = scan_codex(&engine, Ok(vec![]), &profiles);
    assert!(matches!(
        &result.outcome,
        AgentDiscoveryOutcomeV1::Supported { agent_id, version, .. }
            if agent_id == "agent_codex_default" && version == "not-probed"
    ));
    assert_eq!(
        available_model_surfaces("agent_codex_default", false, true, false),
        vec![AgentModelSurfaceV2::CodexDesktop]
    );
}

#[test]
fn non_executable_claude_is_reported_as_located_but_not_runnable() {
    let look = CandidateLook::There { is_canonical: true, target: Some((true, 0o100600)) };
    let failure = on_candidate(&look).unwrap_err();
    assert_eq!(failure, ProbeFailure::NotExecutable);
    let result = probe_report("agent_claude_default", AgentKindV1::ClaudeCode, Some(failure));
    assert!(matches!(
        result.outcome,
        AgentDiscoveryOutcomeV1::ReportOnly {
            reason: AgentReportOnlyReasonV1::ExecutableNotRunnable,
            ..
        }
    ));
    assert!(available_model_surfaces("agent_claude_default", false, false, false).is_empty());
}

#[test]
fn symlink_fails_closed_but_readable_0644_config_does_not_require_hardening() {
    let link = FileFacts { is_symlink: true, is_file: false, ..facts(0o777) };
    let error = on_look(Some(&link), USER, false).unwrap_err();
    assert_eq!(error.report_reason(), AgentReportOnlyReasonV1::SymlinkConfig);
    let readable = facts(0o644);
    assert_eq!(on_look(Some(&readable), USER, false), Ok(ReadStep::Open));
    let path = home();
    let finding = permission_hardening_required(ConfigLayerV1::User, &path, Some(&readable), USER)
        .unwrap()
        .unwrap();
    assert_eq!(
        finding.display_path,
        format!("~/.{}/settings.json", AgentKindV1::ClaudeCode.command_text())
    );
    assert!(validate_hardening_finding(&finding).is_ok());
    let user = ConfigLayerV1::User;
    assert_eq!(on_harden(&finding, &path, user, &readable, USER), Ok(HardeningStep::SetMode));
    let hardened = FileFacts { mode: 0o100600, ctime: 9, ..readable };
    assert_eq!(on_hardened(&finding, &hardened), Ok(PermissionHardeningOutcomeV1::Hardened));
    assert_eq!(
        on_harden(&finding, &path, user, &hardened, USER),
        Ok(HardeningStep::AlreadyHardened)
    );
}

#[test]
fn hardlink_and_identity_drift_fail_before_permission_change_or_secret_read() {
    let linked = FileFacts { nlink: 2, ..facts(0o600) };
    let error = on_look(Some(&linked), USER, false).unwrap_err();
    assert_eq!(error.report_reason(), AgentReportOnlyReasonV1::ConfigUnavailable);
    let readable = facts(0o644);
    let path = home();
    let finding = permission_hardening_required(ConfigLayerV1::User, &path, Some(&readable), USER)
        .unwrap()
        .unwrap();
    let replaced = FileFacts { ino: 3, ..readable };
    assert_eq!(
        on_harden(&finding, &path, ConfigLayerV1::User, &replaced, USER),
        Err(AgentFilesystemScanError::SourceChanged)
    );
    let drifted = FileFacts { mode: 0o100640, ..readable };
    assert_eq!(
        on_harden(&finding, &path, ConfigLayerV1::User, &drifted, USER),
        Err(AgentFilesystemScanError::SourceChanged)
    );
    assert_eq!(
        on_harden(&finding, "/other", ConfigLayerV1::User, &readable, USER),
        Err(AgentFilesystemScanError::InvalidDescriptor)
    );
    assert_eq!(on_hardened(&finding, &readable), Err(AgentFilesystemScanError::SourceChanged));
}

#[test]
fn files_are_judged_before_they_are_opened() {
    assert_eq!(on_look(None, USER, false), Ok(ReadStep::Absent));
    for (file, error) in [
        (FileFacts { is_symlink: true, ..facts(0o600) }, AgentFilesystemScanError::SymlinkConfig),
        (FileFacts { is_file: false, ..facts(0o600) }, AgentFilesystemScanError::InvalidConfig),
        (FileFacts { uid: 1, ..facts(0o600) }, AgentFilesystemScanError::WrongOwner),
        (FileFacts { nlink: 2, ..facts(0o600) }, AgentFilesystemScanError::InvalidConfig),
        (facts(0o620), AgentFilesystemScanError::UnsafePermissions),
        (facts(0o602), AgentFilesystemScanError::UnsafePermissions),
    ] {
        assert_eq!(validate_config_file(&file, USER), Err(error));
        assert_eq!(on_look(Some(&file), USER, false), Err(error));
    }
    let large = FileFacts { len: MAX_FILE_BYTES + 1, ..facts(0o600) };
    assert_eq!(
        on_look(Some(&large), USER, false),
        Err(AgentFilesystemScanError::ConfigTooLarge)
    );
    for (file, error) in [
        (FileFacts { is_symlink: true, ..facts(0o600) }, AgentFilesystemScanError::InvalidConfig),
        (FileFacts { uid: 1, ..facts(0o600) }, AgentFilesystemScanError::WrongOwner),
        (FileFacts { nlink: 2, ..facts(0o600) }, AgentFilesystemScanError::UnsafePermissions),
        (facts(0o666), AgentFilesystemScanError::UnsafePermissions),
    ] {
        assert_eq!(validate_system_config_metadata(&file, USER), Err(error));
    }
    let root = FileFacts { uid: 0, ..facts(0o644) };
    assert!(validate_system_config_metadata(&root, USER).is_ok());
    assert_eq!(validate_config_file(&root, USER), Err(AgentFilesystemScanError::WrongOwner));
}

#[test]
fn reads_are_of_the_file_that_was_looked_at() {
    let file = facts(0o600);
    let other = FileFacts { ino: 9, ..file };
    assert!(on_open(&file, &file, USER, false).is_ok());
    assert_eq!(
        on_open(&file, &other, USER, false),
        Err(AgentFilesystemScanError::SourceChanged)
    );
    assert!(on_read(&file, 10, &file).is_ok());
    assert_eq!(on_read(&file, 9, &file), Err(AgentFilesystemScanError::SourceChanged));
    assert_eq!(on_read(&file, 10, &other), Err(AgentFilesystemScanError::SourceChanged));
    assert!(same_file_identity(&file, &FileFacts { mode: 0o40600, ..file }));
    assert!(!same_file_identity(&file, &FileFacts { mtime_nsec: 0, ..file }));
}

#[test]
fn revisions_are_the_first_digits_of_a_digest() {
    let digest = CanonicalDigest::of_bytes(b"");
    assert_eq!(revision_from_digest(&digest), 0xe3b0c44298fc1c14);
    let file = facts(0o600);
    let identity = stable_identity_from_metadata(&file);
    let expected = CanonicalDigest::of_bytes(
        format!("agent-config-permission/v1\0{}\0384", identity.as_str()).as_bytes(),
    );
    assert_eq!(permission_revision(&identity, 0o100600), revision_from_digest(&expected));
    assert_ne!(
        metadata_revision(&file, &digest),
        metadata_revision(&FileFacts { len: 11, ..file }, &digest)
    );
    let label = format!("{}-settings\0User\0/s.json", AgentKindV1::ClaudeCode.command_text());
    let reference = source_ref("/s.json", ConfigLayerV1::User);
    let whole = CanonicalDigest::of_bytes(label.as_bytes());
    let tail = reference.rsplit('/').next().unwrap();
    assert!(whole.as_str().contains(tail), "{reference}");
}

#[test]
fn shown_paths_hide_the_directories_above() {
    let agent = AgentKindV1::ClaudeCode.command_text();
    assert_eq!(
        display_path(ConfigLayerV1::User, "/secret/home/settings.json"),
        format!("~/.{agent}/settings.json")
    );
    for layer in [ConfigLayerV1::Project, ConfigLayerV1::Launch, ConfigLayerV1::Managed] {
        let shown = display_path(layer, "/secret/dir/settings.local.json");
        assert!(shown.ends_with("settings.local.json"), "{shown}");
        assert!(!shown.contains("secret"), "{shown}");
    }
}
