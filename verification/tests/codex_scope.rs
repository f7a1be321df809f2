use hiroute::agents::claude_files::{on_look, on_read, FileFacts, ReadStep, MAX_FILE_BYTES};
use hiroute::agents::codex_catalog::CodexCatalogError;
use hiroute::agents::codex_catalog_plan::CodexCatalogMetadataSourceV1;
use hiroute::agents::codex_catalog_source::{
    baseline_source, catalog_source, codex_catalog_baseline, configured_catalog_source,
    read_catalog_source, revalidate_codex_catalog_source, revalidate_codex_configured_catalog,
    sample_codex_catalog_summary, CodexCatalogBaseline, CodexConfiguredCatalog,
    PointerRevalidation,
};
use hiroute::agents::codex_config::CodexSelectionTarget;
use hiroute::agents::codex_layers::{
    codex_has_context_override, layer_files, sample_codex_configuration, CodexConfigurationScope,
    CodexEffectiveConfiguration, LayerRead,
};
use hiroute::agents::discovery::{ConfigLayerV1, ConfigObservationV1};
use hiroute::agents::filesystem::AgentFilesystemScanError;
use hiroute::digest::CanonicalDigest;
use hiroute::json::{to_bytes, Json};

const USER: &str = "/home/me/.codex/config.toml";
const SYSTEM: &str = "/etc/codex/system.toml";
const PROJECT: &str = "/work/project.toml";
const CATALOG: &str = "/home/me/catalog.json";

type Files<'a> = Vec<(&'a str, LayerRead)>;

fn text(content: &str) -> LayerRead {
    Ok(Some(content.as_bytes().to_vec()))
}

fn user_scope() -> CodexConfigurationScope {
    CodexConfigurationScope::user_file(USER.to_owned())
}

/// Reads the files of a scope out of a list; a file that is not in it is absent.
fn sample(
    scope: &CodexConfigurationScope,
    files: &Files,
) -> Result<CodexEffectiveConfiguration, AgentFilesystemScanError> {
    let reads = layer_files(scope)
        .iter()
        .map(|file| match files.iter().find(|(path, _)| *path == file.path) {
            Some((_, read)) => read.clone(),
            None => Ok(None),
        })
        .collect();
    sample_codex_configuration(scope, &reads)
}

fn observed<'a>(effective: &'a CodexEffectiveConfiguration, path: &str) -> &'a ConfigObservationV1 {
    effective.observations.iter().find(|field| field.path == path).unwrap()
}

fn is_text(observation: &ConfigObservationV1, expected: &str) {
    assert!(matches!(&observation.value, Json::Str(text) if text == expected));
}

fn in_document<'a>(effective: &'a CodexEffectiveConfiguration, name: &str) -> Option<&'a str> {
    effective.source_document.get(name).and_then(|item| item.as_str())
}

#[test]
fn codex_catalog_project_override_blocks_user_pointer_application() {
    let files = vec![
        (USER, text("model_catalog_json = '/user/catalog.json'\n")),
        (PROJECT, text("model_catalog_json = '/project/catalog.json'\n")),
    ];
    let mut scope = user_scope();
    let before = sample(&scope, &files).unwrap();
    assert!(before.writable_selection);
    scope.trusted_project_files.push(PROJECT.to_owned());
    let after = sample(&scope, &files).unwrap();
    assert!(!after.writable_selection);
    assert_eq!(in_document(&after, "model_catalog_json"), Some("/project/catalog.json"));
    is_text(observed(&after, "model_catalog_json"), "/project/catalog.json");
    assert_ne!(before.dependency_digest.as_str(), after.dependency_digest.as_str());
}

#[test]
fn codex_catalog_profile_then_cli_override_preserves_scope_identity() {
    let files = vec![(
        USER,
        text("model_catalog_json = '/root.json'\n[profiles.work]\nmodel_catalog_json = '/profile.json'\n"),
    )];
    let mut scope = user_scope();
    scope.selection = CodexSelectionTarget::LegacyProfile("work".into());
    let profile = sample(&scope, &files).unwrap();
    assert!(profile.writable_selection);
    assert_eq!(in_document(&profile, "model_catalog_json"), Some("/profile.json"));
    scope.cli_overrides.push("model_catalog_json='/cli.json'".into());
    let cli = sample(&scope, &files).unwrap();
    assert!(!cli.writable_selection);
    assert_eq!(in_document(&cli, "model_catalog_json"), Some("/cli.json"));
    assert_ne!(profile.dependency_digest.as_str(), cli.dependency_digest.as_str());
    assert_ne!(profile.context_digest.as_str(), cli.context_digest.as_str());
}

#[test]
fn codex_catalog_non_string_override_is_rejected() {
    let files = vec![(USER, text("model_catalog_json = 17\n"))];
    assert!(matches!(
        sample(&user_scope(), &files),
        Err(AgentFilesystemScanError::InvalidConfig)
    ));
}

#[test]
fn codex_layers_follow_explicit_scope_and_cli_wins_without_claiming_writability() {
    let mut files = vec![
        (SYSTEM, text("model = 'system'\nmodel_provider = 'system'\n")),
        (USER, text("model = 'user'\n[profiles.work]\nmodel = 'profile'\n")),
        (PROJECT, text("model = 'project'\n")),
    ];
    let mut scope = user_scope();
    scope.system_file = Some(SYSTEM.to_owned());
    scope.trusted_project_files.push(PROJECT.to_owned());
    let project = sample(&scope, &files).unwrap();
    is_text(observed(&project, "model"), "project");
    assert!(!project.writable_selection);
    scope.selection = CodexSelectionTarget::LegacyProfile("work".into());
    let profile = sample(&scope, &files).unwrap();
    is_text(observed(&profile, "model"), "profile");
    assert!(profile.writable_selection);
    scope.cli_overrides.push("model = 'cli'".into());
    let cli = sample(&scope, &files).unwrap();
    is_text(observed(&cli, "model"), "cli");
    assert!(!cli.writable_selection);
    assert_ne!(profile.dependency_digest.as_str(), cli.dependency_digest.as_str());
    scope.cli_overrides.clear();
    files[1].1 = text("model = 'user'\nother = true\n[profiles.work]\nmodel = 'profile'\n");
    assert_ne!(
        sample(&scope, &files).unwrap().dependency_digest.as_str(),
        profile.dependency_digest.as_str()
    );
}

fn facts(mode: u32, uid: u32) -> FileFacts {
    FileFacts {
        is_symlink: false,
        is_file: true,
        dev: 1,
        ino: 2,
        uid,
        gid: 3,
        nlink: 1,
        len: 10,
        mode: 0o100000 | mode,
        mtime: 4,
        mtime_nsec: 5,
        ctime: 6,
        ctime_nsec: 7,
    }
}

/// What reading a file gives, where it is looked at first.
fn read_at(file: &FileFacts, system: bool, content: &str) -> LayerRead {
    match on_look(Some(file), 1000, system) {
        Ok(ReadStep::Open) => text(content),
        Ok(ReadStep::Absent) => Ok(None),
        Err(error) => Err(error),
    }
}

#[test]
fn codex_layers_reject_unknown_profile_duplicate_keys_and_untrusted_file_shape() {
    let mut scope = user_scope();
    assert!(sample(&scope, &vec![(USER, text("model = 'a'\nmodel = 'b'\n"))]).is_err());
    scope.selection = CodexSelectionTarget::LegacyProfile("missing".into());
    assert!(sample(&scope, &vec![(USER, text("model = 'a'\n"))]).is_err());
    scope.selection = CodexSelectionTarget::Root;
    let read = read_at(&facts(0o666, 1000), false, "model = 'a'\n");
    assert!(matches!(
        sample(&scope, &vec![(USER, read)]),
        Err(AgentFilesystemScanError::UnsafePermissions)
    ));
}

#[test]
fn codex_system_layer_is_read_only_and_may_be_public_readable() {
    let content = "model = 'system-default'\n";
    let mut scope = user_scope();
    scope.system_file = Some(SYSTEM.to_owned());
    let observed =
        sample(&scope, &vec![(SYSTEM, read_at(&facts(0o644, 1000), true, content))]).unwrap();
    is_text(&observed.observations[0], "system-default");
    assert_eq!(observed.observations[0].layer, ConfigLayerV1::Managed);
    let user_view = CodexConfigurationScope::user_file(SYSTEM.to_owned());
    let observed =
        sample(&user_view, &vec![(SYSTEM, read_at(&facts(0o644, 1000), false, content))]).unwrap();
    is_text(&observed.observations[0], "system-default");
    assert_eq!(observed.observations[0].layer, ConfigLayerV1::User);
    assert!(sample(&scope, &vec![(SYSTEM, read_at(&facts(0o666, 1000), true, content))]).is_err());
}

#[test]
fn scopes_are_bounded() {
    let mut scope = user_scope();
    scope.cli_overrides = vec!["model='x'".to_owned(); 65];
    assert!(matches!(
        sample(&scope, &vec![]),
        Err(AgentFilesystemScanError::InvalidConfig)
    ));
    let mut scope = user_scope();
    scope.trusted_project_files = vec![PROJECT.to_owned(); 33];
    assert!(sample(&scope, &vec![]).is_err());
    let mut scope = user_scope();
    scope.codex_home = "/elsewhere".to_owned();
    assert!(sample(&scope, &vec![]).is_err());
    let mut scope = user_scope();
    scope.selected_profile_file = Some("/home/me/.codex/p.toml".to_owned());
    scope.selection = CodexSelectionTarget::LegacyProfile("work".into());
    assert!(sample(&scope, &vec![]).is_err());
}

#[test]
fn later_layers_count_before_earlier_ones() {
    let mut scope = user_scope();
    let profile = "/home/me/.codex/work.config.toml";
    scope.selected_profile_file = Some(profile.to_owned());
    let files = vec![
        (USER, text("model = 'user'\nmodel_provider = 'p'\n")),
        (profile, text("model = 'selected'\n")),
    ];
    let effective = sample(&scope, &files).unwrap();
    is_text(observed(&effective, "model"), "selected");
    assert_eq!(observed(&effective, "model").layer, ConfigLayerV1::Launch);
    is_text(observed(&effective, "model_provider"), "p");
    assert_eq!(observed(&effective, "model_provider").layer, ConfigLayerV1::User);
}

#[test]
fn context_overrides_are_seen_in_files_and_arguments() {
    for (name, content) in [
        ("model_context_window", "model_context_window = 900000\n"),
        ("model_auto_compact_token_limit", "model_auto_compact_token_limit = 900000\n"),
    ] {
        assert!(matches!(
            codex_has_context_override(&user_scope(), &vec![text(content)]),
            Ok(true)
        ));
        let mut scope = user_scope();
        scope.cli_overrides.push(format!("{name}=900000"));
        assert!(matches!(codex_has_context_override(&scope, &vec![Ok(None)]), Ok(true)));
    }
    assert!(matches!(
        codex_has_context_override(&user_scope(), &vec![text("model='m'\n")]),
        Ok(false)
    ));
    assert!(matches!(
        codex_has_context_override(&user_scope(), &vec![Err(AgentFilesystemScanError::Io)]),
        Err(AgentFilesystemScanError::Io)
    ));
}

const MODELS: &str = "{\"models\":[{\"slug\":\"gpt-5.4\",\"display_name\":\"GPT-5.4\",\"priority\":0,\"visibility\":\"list\",\"supported_in_api\":true,\"default_reasoning_level\":\"medium\"},{\"slug\":\"gpt-5.4-mini\",\"display_name\":\"Mini\",\"priority\":1,\"visibility\":\"list\",\"supported_in_api\":true}]}";

fn names() -> Vec<String> {
    vec!["gpt-5.4".to_owned(), "gpt-5.4-mini".to_owned()]
}

fn pointer() -> LayerRead {
    text(&format!("model_catalog_json = '{CATALOG}'\n"))
}

fn without_pointer() -> LayerRead {
    text("model = 'gpt-5.4'\n")
}

/// Reads the catalog that a scope points at.
fn configured(
    scope: &CodexConfigurationScope,
    files: &Files,
    catalog: &LayerRead,
) -> Result<Option<CodexConfiguredCatalog>, AgentFilesystemScanError> {
    let before = sample(scope, files)?;
    match configured_catalog_source(&before)? {
        Some(source) => {
            read_catalog_source(&source, &before, catalog, &sample(scope, files)).map(Some)
        }
        None => Ok(None),
    }
}

/// Reads the catalog of a target; `at` gives what is in each file.
fn target(
    scope: &CodexConfigurationScope,
    files: &Files,
    at: &Files,
) -> Result<CodexConfiguredCatalog, AgentFilesystemScanError> {
    let before = sample(scope, files)?;
    let source = catalog_source(&before, &scope.codex_home)?;
    let read = match at.iter().find(|(path, _)| *path == source.path) {
        Some((_, read)) => read.clone(),
        None => Ok(None),
    };
    read_catalog_source(&source, &before, &read, &sample(scope, files))
}

const CACHE: &str = "/home/me/.codex/models_cache.json";

#[test]
fn configured_catalog_preserves_full_values_without_writes() {
    let files = vec![(USER, pointer())];
    let sampled = configured(&user_scope(), &files, &text(MODELS)).unwrap().unwrap();
    assert_eq!(
        serde_json::from_slice::<serde_json::Value>(&to_bytes(&sampled.original)).unwrap(),
        serde_json::from_str::<serde_json::Value>(MODELS).unwrap()
    );
    assert_eq!(
        sampled.content_digest.as_str(),
        CanonicalDigest::of_bytes(MODELS.as_bytes()).as_str()
    );
    revalidate_codex_configured_catalog(&configured(&user_scope(), &files, &text(MODELS)), &sampled)
        .unwrap();
}

#[test]
fn summary_keeps_native_names_and_distinguishes_metadata_origin() {
    let files = vec![(USER, pointer())];
    let catalog = configured(&user_scope(), &files, &text(MODELS)).unwrap().unwrap();
    let effective = sample(&user_scope(), &files).unwrap();
    let configured =
        sample_codex_catalog_summary(Ok(catalog), true, None, Some(&effective), &names()).unwrap();
    assert_eq!(configured.metadata_source, CodexCatalogMetadataSourceV1::UserConfigured);
    assert!(!configured.models.is_empty());
    assert!(configured.models.iter().any(|model| {
        model.client_model_id == configured.native_default_model && !model.display_name.is_empty()
    }));
    let files = vec![(USER, without_pointer())];
    let catalog = target(&user_scope(), &files, &vec![(CACHE, text(MODELS))]);
    let effective = sample(&user_scope(), &files).unwrap();
    let cached =
        sample_codex_catalog_summary(catalog, true, None, Some(&effective), &names()).unwrap();
    assert_eq!(cached.metadata_source, CodexCatalogMetadataSourceV1::TargetCache);
    assert!(!cached.models.is_empty());
}

#[test]
fn summaries_show_the_reasoning_that_applies() {
    let summary = |content: &str| {
        let files = vec![(USER, text(content))];
        let catalog = target(&user_scope(), &files, &vec![(CACHE, text(MODELS))]);
        let effective = sample(&user_scope(), &files).unwrap();
        sample_codex_catalog_summary(catalog, true, None, Some(&effective), &names())
    };
    let plain = summary("").unwrap();
    assert_eq!(plain.native_default_model, "gpt-5.4");
    assert_eq!(plain.models[0].native_reasoning_profile.as_deref(), Some("medium"));
    assert_eq!(plain.models[1].native_reasoning_profile, None);
    let set = summary("model_reasoning_effort = 'high'\n").unwrap();
    assert!(set
        .models
        .iter()
        .all(|model| model.native_reasoning_profile.as_deref() == Some("high")));
    assert_eq!(
        summary("model_reasoning_effort = 3\n").unwrap_err(),
        CodexCatalogError::InvalidCatalog
    );
    assert_eq!(
        sample_codex_catalog_summary(
            Err(AgentFilesystemScanError::SourceUnavailable),
            true,
            None,
            None,
            &names()
        )
        .unwrap_err(),
        CodexCatalogError::CapabilityUnproven
    );
}

#[test]
fn no_configured_catalog_does_not_invent_bundled_source() {
    assert!(configured(&user_scope(), &vec![], &Ok(None)).unwrap().is_none());
    assert!(matches!(
        target(&user_scope(), &vec![], &vec![]),
        Err(AgentFilesystemScanError::SourceUnavailable)
    ));
}

#[test]
fn target_cache_is_bound_to_the_selected_codex_home() {
    let files = vec![(USER, without_pointer())];
    let at = vec![(CACHE, text(MODELS)), ("/other/.codex/models_cache.json", text(MODELS))];
    let sampled = target(&user_scope(), &files, &at).unwrap();
    assert_eq!(sampled.metadata_source, CodexCatalogMetadataSourceV1::TargetCache);
    assert_eq!(sampled.path, CACHE);
    let only_other = vec![("/other/.codex/models_cache.json", text(MODELS))];
    assert!(target(&user_scope(), &files, &only_other).is_err());
}

#[test]
fn invalid_or_missing_target_cache_never_uses_hiroute_bundled_fixture() {
    let files = vec![(USER, without_pointer())];
    assert!(matches!(
        target(&user_scope(), &files, &vec![]),
        Err(AgentFilesystemScanError::SourceUnavailable)
    ));
    assert!(matches!(
        target(&user_scope(), &files, &vec![(CACHE, text("{\"models\":[]}"))]),
        Err(AgentFilesystemScanError::InvalidConfig)
    ));
}

#[test]
fn invalid_explicit_catalog_does_not_fall_back_to_valid_target_cache() {
    let files = vec![(USER, pointer())];
    assert!(matches!(
        target(&user_scope(), &files, &vec![(CACHE, text(MODELS))]),
        Err(AgentFilesystemScanError::SourceUnavailable)
    ));
}

#[test]
fn missing_selected_file_is_not_fallback_eligible() {
    assert!(matches!(
        configured(&user_scope(), &vec![(USER, pointer())], &Ok(None)),
        Err(AgentFilesystemScanError::SourceUnavailable)
    ));
}

#[test]
fn changed_catalog_rejects_old_observation() {
    let files = vec![(USER, pointer())];
    let sampled = configured(&user_scope(), &files, &text(MODELS)).unwrap().unwrap();
    let mut changed: serde_json::Value = serde_json::from_str(MODELS).unwrap();
    changed["opaque"] = serde_json::from_str("{\"new\":true}").unwrap();
    let changed = text(&serde_json::to_string(&changed).unwrap());
    assert!(matches!(
        revalidate_codex_configured_catalog(&configured(&user_scope(), &files, &changed), &sampled),
        Err(AgentFilesystemScanError::SourceChanged)
    ));
}

#[test]
fn changed_scope_rejects_even_identical_catalog_bytes() {
    let sampled = configured(&user_scope(), &vec![(USER, pointer())], &text(MODELS))
        .unwrap()
        .unwrap();
    let other_path = "/home/me/.codex/other.toml";
    let other = CodexConfigurationScope::user_file(other_path.to_owned());
    assert!(matches!(
        revalidate_codex_configured_catalog(
            &configured(&other, &vec![(other_path, pointer())], &text(MODELS)),
            &sampled
        ),
        Err(AgentFilesystemScanError::SourceChanged)
    ));
}

#[test]
fn symlink_catalog_is_rejected_without_touching_target() {
    let link = FileFacts { is_symlink: true, is_file: false, ..facts(0o777, 1000) };
    let read = read_at(&link, true, MODELS);
    assert!(configured(&user_scope(), &vec![(USER, pointer())], &read).is_err());
}

#[test]
fn writable_by_others_catalog_is_rejected() {
    let read = read_at(&facts(0o666, 1000), true, MODELS);
    assert!(matches!(
        configured(&user_scope(), &vec![(USER, pointer())], &read),
        Err(AgentFilesystemScanError::UnsafePermissions)
    ));
}

#[test]
fn hardlinked_catalog_is_rejected() {
    let linked = FileFacts { nlink: 2, ..facts(0o644, 1000) };
    let read = read_at(&linked, true, MODELS);
    assert!(matches!(
        configured(&user_scope(), &vec![(USER, pointer())], &read),
        Err(AgentFilesystemScanError::UnsafePermissions)
    ));
}

#[test]
fn oversized_catalog_is_rejected_before_parsing() {
    let large = FileFacts { len: 1024 * 1024 + 1, ..facts(0o644, 1000) };
    let read = read_at(&large, true, MODELS);
    assert!(matches!(
        configured(&user_scope(), &vec![(USER, pointer())], &read),
        Err(AgentFilesystemScanError::ConfigTooLarge)
    ));
    let file = facts(0o644, 1000);
    assert_eq!(
        on_read(&file, MAX_FILE_BYTES + 1, &file),
        Err(AgentFilesystemScanError::ConfigTooLarge)
    );
}

#[test]
fn unresolved_relative_catalog_is_not_read_from_process_directory() {
    let files = vec![(USER, text("model_catalog_json = 'catalog.json'\n"))];
    assert!(matches!(
        configured(&user_scope(), &files, &text(MODELS)),
        Err(AgentFilesystemScanError::InvalidConfig)
    ));
}

#[test]
fn empty_catalog_is_not_fallback_eligible() {
    assert!(matches!(
        configured(&user_scope(), &vec![(USER, pointer())], &text("{\"models\":[]}")),
        Err(AgentFilesystemScanError::InvalidConfig)
    ));
}

#[test]
fn model_list_is_not_accepted_as_configured_catalog() {
    assert!(matches!(
        configured(
            &user_scope(),
            &vec![(USER, pointer())],
            &text("{\"data\":[{\"id\":\"model\"}]}")
        ),
        Err(AgentFilesystemScanError::InvalidConfig)
    ));
}

#[test]
fn selected_profile_catalog_wins_without_reading_root_catalog() {
    let content = format!("model_catalog_json = '/missing-root.json'\n[profiles.work]\nmodel_catalog_json = '{CATALOG}'\n");
    let mut scope = user_scope();
    scope.selection = CodexSelectionTarget::LegacyProfile("work".into());
    let sampled =
        configured(&scope, &vec![(USER, text(&content))], &text(MODELS)).unwrap().unwrap();
    assert_eq!(sampled.path, CATALOG);
}

#[test]
fn scopes_that_change_during_a_read_are_refused() {
    let scope = user_scope();
    let before = sample(&scope, &vec![(USER, without_pointer())]).unwrap();
    let source = catalog_source(&before, &scope.codex_home).unwrap();
    assert_eq!(source.pointer, PointerRevalidation::Absent);
    let after = sample(&scope, &vec![(USER, pointer())]);
    assert!(matches!(
        read_catalog_source(&source, &before, &text(MODELS), &after),
        Err(AgentFilesystemScanError::SourceChanged)
    ));
    assert!(matches!(
        read_catalog_source(&source, &before, &text(MODELS), &Err(AgentFilesystemScanError::Io)),
        Err(AgentFilesystemScanError::Io)
    ));
    let files = vec![(USER, without_pointer())];
    let at = vec![(CACHE, text(MODELS))];
    let sampled = target(&scope, &files, &at).unwrap();
    assert!(revalidate_codex_catalog_source(&target(&scope, &files, &at), &sampled).is_ok());
    assert_eq!(
        revalidate_codex_catalog_source(&Err(AgentFilesystemScanError::Io), &sampled),
        Err(AgentFilesystemScanError::Io)
    );
}

#[test]
fn managed_updates_start_from_the_users_own_catalog() {
    let scope = user_scope();
    let before = sample(&scope, &vec![(USER, pointer())]).unwrap();
    let source = |baseline| baseline_source(&baseline, &before, &scope.codex_home).unwrap();
    let own = source(CodexCatalogBaseline::Original(Some("/mine.json".to_owned())));
    assert_eq!((own.path.as_str(), own.pointer), ("/mine.json", PointerRevalidation::Ignore));
    let none = source(CodexCatalogBaseline::Original(None));
    assert_eq!((none.path.as_str(), none.pointer), (CACHE, PointerRevalidation::Ignore));
    assert_eq!(source(CodexCatalogBaseline::Scope).path, CATALOG);
    for record in [vec![], vec![1, 0], vec![2, 0, 0], vec![1, 2, 0], vec![1, 0, b'x']] {
        assert!(matches!(
            codex_catalog_baseline(&record),
            Err(CodexCatalogError::InvalidCatalog)
        ));
    }
}

#[test]
fn identities_cover_every_sampled_input() {
    let content = "model = 'a'\n[profiles.work]\nmodel = 'b'\n[profiles.home]\nmodel = 'b'\n";
    let files = vec![(USER, text(content)), (PROJECT, text("model = 'c'\n"))];
    let digests = |scope: &CodexConfigurationScope, files: &Files| {
        let effective = sample(scope, files).unwrap();
        (
            effective.dependency_digest.as_str().to_owned(),
            effective.context_digest.as_str().to_owned(),
        )
    };
    let scope = || {
        let mut scope = user_scope();
        scope.selection = CodexSelectionTarget::LegacyProfile("work".into());
        scope.trusted_project_files.push(PROJECT.to_owned());
        scope.cli_overrides.push("model='d'".into());
        scope
    };
    let first = digests(&scope(), &files);
    assert_eq!(first, digests(&scope(), &files));

    let changed = vec![(USER, text(&format!("{content} "))), (PROJECT, text("model = 'c'\n"))];
    assert_ne!(first.0, digests(&scope(), &changed).0);
    let absent = vec![(USER, text(content))];
    assert_ne!(first.0, digests(&scope(), &absent).0);
    let empty = vec![(USER, text(content)), (PROJECT, text(""))];
    assert_ne!(digests(&scope(), &absent).0, digests(&scope(), &empty).0);

    let mut profile = scope();
    profile.selection = CodexSelectionTarget::LegacyProfile("home".into());
    let mut path = scope();
    path.trusted_project_files[0] = "/work/other.toml".to_owned();
    let mut overridden = scope();
    overridden.cli_overrides[0] = "model='e'".into();
    let mut ordered = scope();
    ordered.cli_overrides.push("x=1".into());
    let mut swapped = scope();
    swapped.cli_overrides.insert(0, "x=1".into());
    let moved = vec![(USER, text(content)), ("/work/other.toml", text("model = 'c'\n"))];
    for other in [
        digests(&profile, &files),
        digests(&path, &moved),
        digests(&overridden, &files),
        digests(&ordered, &files),
    ] {
        assert_ne!(first.0, other.0);
        assert_ne!(first.1, other.1);
    }
    assert_ne!(digests(&ordered, &files), digests(&swapped, &files));
}

#[test]
fn homes_are_the_directories_that_the_files_lie_in() {
    for (file, home) in [
        ("/a/b", "/a"),
        ("/a/b/", "/a"),
        ("/a//b", "/a"),
        ("/a/./b/.", "/a"),
        ("//a", "/"),
        ("/a", "/"),
        ("/", ""),
        ("//", ""),
        ("", ""),
        ("a", ""),
        ("a/b", "a"),
        ("./a", "."),
        (".", ""),
        ("./", ""),
        ("a/..", "a"),
        ("../a", ".."),
        (".a/b", ".a"),
    ] {
        let scope = CodexConfigurationScope::user_file(file.to_owned());
        assert_eq!(scope.codex_home, home, "{file}");
        let parent = std::path::Path::new(file).parent();
        let expected = parent.map(|path| path.to_str().unwrap()).unwrap_or("");
        assert_eq!(scope.codex_home, expected, "{file}");
    }
    for file in ["/home/me/.codex/config.toml", "/home/me//.codex/./config.toml/"] {
        let scope = CodexConfigurationScope::user_file(file.to_owned());
        assert!(sample(&scope, &vec![(file, text("model = 'a'\n"))]).is_ok());
    }
}
