//! What a scan makes of files and sources, told by what was looked at and what came back.

use vstd::prelude::*;
use crate::agents::claude_files::{
    display_path, file_name_of, hex_value, on_harden, on_hardened, on_look, on_open, on_read,
    own_directory, own_name, permission_hardening_required, revision_from_digest,
    same_file_identity, settings_ref, stable_identity_from_metadata, validate_config_file,
    validate_hardening_finding, validate_system_config_metadata, FileFacts, HardeningStep,
    PermissionHardeningOutcomeV1, PermissionHardeningRequiredV1, ReadStep,
};
use crate::agents::claude_observation::{deciding, has_field, SettingsField};
use crate::agents::claude_scan::{
    accept_credential, available_model_surfaces, claude_installation_for_applied_user_change,
    codex_engine_target, executable_view, finish_claude_scan, hints_of, locate_credential,
    place_of_source, read_view, removals_view, sources_view, start_claude_scan,
    AgentFilesystemLayoutV1, AgentModelSurfaceV2, ClaudeScanStep, PendingClaudeScan,
    RegistryAnswer, ScanView,
};
use crate::agents::claude_settings::{
    maybe_text, pairs_view, source_ref_of, ClaudeSource, ObservedClaudeSettings, ObservedView,
};
use crate::agents::discovery::{
    evidence_view, AgentDiscoveryOutcomeV1, AgentKindV1, AgentProfileFacts,
    AgentReportOnlyReasonV1, ConfigLayerV1, ConfigObservationV1,
};
use crate::agents::executable::{ExecutableObservationV1, ProbeFailure};
use crate::agents::filesystem::{
    agent_id_of, discovered_credential, is_observed_model, probe_report,
    registered_model_candidates, scan_codex, scan_results, validate_descriptor, without_selector,
    AgentFilesystemScanError, DiscoveredCredentialRefV1, FilesystemAgentDiscoveryV1,
};
use crate::digest::CanonicalDigest;
use crate::text::{after_prefix, last_place, precedes, views_of};

verus! {

/// A file is read as the user's setting only where it is a regular file of theirs under one name,
/// that no other may write; what is wrong first is told.
pub proof fn user_files_are_the_users_own(
    file: &FileFacts,
    user: u32,
    r: Result<(), AgentFilesystemScanError>,
)
    requires
        call_ensures(validate_config_file, (file, user), r),
    ensures
        r is Ok <==> file.is_file && !file.is_symlink && file.uid == user && file.nlink == 1
            && file.mode & 0o022 == 0,
        file.is_symlink ==> r == Err::<(), _>(AgentFilesystemScanError::SymlinkConfig),
        !file.is_symlink && file.is_file && file.uid != user ==> r == Err::<(), _>(
            AgentFilesystemScanError::WrongOwner,
        ),
        !file.is_symlink && file.is_file && file.uid == user && file.nlink == 1 && file.mode & 0o022
            != 0 ==> r == Err::<(), _>(AgentFilesystemScanError::UnsafePermissions),
{
}

/// A file is read as a system setting only where it is a regular file of the user's or of the
/// system's owner, under one name, that no other may write.
pub proof fn system_files_are_owned_by_the_system(
    file: &FileFacts,
    user: u32,
    r: Result<(), AgentFilesystemScanError>,
)
    requires
        call_ensures(validate_system_config_metadata, (file, user), r),
    ensures
        r is Ok <==> file.is_file && !file.is_symlink && (file.uid == 0 || file.uid == user)
            && file.nlink == 1 && file.mode & 0o022 == 0,
        file.is_file && !file.is_symlink && file.uid != 0 && file.uid != user ==> r == Err::<(), _>(
            AgentFilesystemScanError::WrongOwner,
        ),
{
}

/// Two looks saw the same file only where nothing that tells files apart, and nothing that a change
/// would leave a trace in, differs.
pub proof fn changed_files_are_noticed(a: &FileFacts, b: &FileFacts, r: bool)
    requires
        call_ensures(same_file_identity, (a, b), r),
    ensures
        r <==> a.dev == b.dev && a.ino == b.ino && a.uid == b.uid && a.gid == b.gid && a.nlink
            == b.nlink && a.len == b.len && a.mtime == b.mtime && a.mtime_nsec == b.mtime_nsec
            && a.ctime == b.ctime && a.ctime_nsec == b.ctime_nsec && a.mode & 0o777 == b.mode
            & 0o777,
{
}

/// A file is opened only where it may be read and is at most a mebibyte; there is none where none
/// was seen.
pub proof fn only_readable_files_are_opened(
    file: Option<&FileFacts>,
    user: u32,
    system: bool,
    r: Result<ReadStep, AgentFilesystemScanError>,
)
    requires
        call_ensures(on_look, (file, user, system), r),
    ensures
        (r matches Ok(ReadStep::Absent)) <==> file is None,
        (r matches Ok(ReadStep::Open)) <==> (file matches Some(file) && file.is_file
            && !file.is_symlink && (file.uid == user || (system && file.uid == 0)) && file.nlink
            == 1 && file.mode & 0o022 == 0 && file.len <= 1_048_576),
{
}

/// What was read counts only where it is the whole of a file that stayed the same, and is at most a
/// mebibyte.
pub proof fn only_whole_unchanged_reads_count(
    opened: &FileFacts,
    bytes: u64,
    after: &FileFacts,
    r: Result<(), AgentFilesystemScanError>,
    same: bool,
)
    requires
        call_ensures(on_read, (opened, bytes, after), r),
        call_ensures(same_file_identity, (opened, after), same),
    ensures
        r is Ok <==> bytes <= 1_048_576 && same && after.len == bytes,
        bytes > 1_048_576 ==> r == Err::<(), _>(AgentFilesystemScanError::ConfigTooLarge),
{
}

/// An open file is the one that was looked at, and still of the right kind and owner.
pub proof fn opened_files_are_those_looked_at(
    looked_at: &FileFacts,
    opened: &FileFacts,
    user: u32,
    system: bool,
    r: Result<(), AgentFilesystemScanError>,
    same: bool,
)
    requires
        call_ensures(on_open, (looked_at, opened, user, system), r),
        call_ensures(same_file_identity, (looked_at, opened), same),
    ensures
        r is Ok ==> same && opened.is_file && !opened.is_symlink && (opened.uid == user || (system
            && opened.uid == 0)),
        same && opened.is_file && !opened.is_symlink && opened.uid == user && opened.nlink == 1
            && opened.mode & 0o022 == 0 ==> r is Ok,
{
}

/// A file is found open to others exactly where anyone else may do anything with it; what is found
/// asks for a file that only its owner reads and writes, and names the file by its reference.
pub proof fn open_files_are_found(
    layer: ConfigLayerV1,
    path: &str,
    file: Option<&FileFacts>,
    user: u32,
    r: Result<Option<PermissionHardeningRequiredV1>, AgentFilesystemScanError>,
)
    requires
        call_ensures(permission_hardening_required, (layer, path, file, user), r),
    ensures
        (r matches Ok(Some(_))) <==> (file matches Some(file) && file.is_file && !file.is_symlink
            && file.uid == user && file.nlink == 1 && file.mode & 0o077 != 0),
        r matches Ok(Some(finding)) ==> finding.required_mode == 0o600
            && finding.discovered_source_ref@ == settings_ref(path@, layer) && finding.scanner_id@
            == "builtin.agent-filesystem"@ && finding.scanner_version@ == "1"@,
        file is None ==> (r matches Ok(None)),
{
}

/// The mode of a file is set only where the file is the one that was found, with the permissions
/// that were found, and not the required ones yet.
pub proof fn only_found_files_are_hardened(
    finding: &PermissionHardeningRequiredV1,
    path: &str,
    layer: ConfigLayerV1,
    opened: &FileFacts,
    user: u32,
    r: Result<HardeningStep, AgentFilesystemScanError>,
    identity: CanonicalDigest,
)
    requires
        call_ensures(on_harden, (finding, path, layer, opened, user), r),
        call_ensures(stable_identity_from_metadata, (opened,), identity),
    ensures
        r is Ok ==> settings_ref(path@, layer) == finding.discovered_source_ref@ && opened.is_file
            && opened.uid == user && opened.nlink == 1 && identity@ == finding.observed_identity@,
        (r matches Ok(HardeningStep::AlreadyHardened)) ==> opened.mode & 0o777 == 0o600,
        (r matches Ok(HardeningStep::SetMode)) ==> opened.mode & 0o777 != 0o600,
        settings_ref(path@, layer) == finding.discovered_source_ref@ && opened.is_file && opened.uid
            == user && opened.nlink == 1 && identity@ == finding.observed_identity@ && opened.mode
            & 0o777 == 0o600 ==> (r matches Ok(HardeningStep::AlreadyHardened)),
{
}

/// A file is hardened only where it is still the one that was found and has the required mode.
pub proof fn hardened_files_have_the_mode(
    finding: &PermissionHardeningRequiredV1,
    after: &FileFacts,
    r: Result<PermissionHardeningOutcomeV1, AgentFilesystemScanError>,
    identity: CanonicalDigest,
)
    requires
        call_ensures(on_hardened, (finding, after), r),
        call_ensures(stable_identity_from_metadata, (after,), identity),
    ensures
        r is Ok <==> identity@ == finding.observed_identity@ && after.mode & 0o777 == 0o600,
        r matches Ok(outcome) ==> outcome == PermissionHardeningOutcomeV1::Hardened,
{
}

/// The revision of a digest is never zero, and is the number of its first sixteen digits where that
/// is not zero.
pub proof fn revisions_are_never_zero(digest: &CanonicalDigest, r: u64)
    requires
        call_ensures(revision_from_digest, (digest,), r),
    ensures
        r > 0,
        hex_value(digest@.subrange(7, 23)) > 0 ==> r == hex_value(digest@.subrange(7, 23)),
{
}

/// A credential reference is one of this scanner, for one of two variables, of a known revision.
pub proof fn credential_references_are_checked(
    descriptor: &DiscoveredCredentialRefV1,
    r: Result<(), AgentFilesystemScanError>,
)
    requires
        call_ensures(validate_descriptor, (descriptor,), r),
    ensures
        r is Ok <==> descriptor.source@ == "discovered_config"@ && descriptor.scanner_id@
            == "builtin.agent-filesystem"@ && descriptor.scanner_version@ == "1"@ && (
        descriptor.field_selector@ == "env.ANTHROPIC_AUTH_TOKEN"@ || descriptor.field_selector@
            == "env.ANTHROPIC_API_KEY"@) && descriptor.observed_revision != 0,
{
}

/// What refers to the credential of a source names that source and its revision, and is accepted.
pub proof fn found_credentials_are_accepted(
    source: &ObservedClaudeSettings,
    descriptor: DiscoveredCredentialRefV1,
    r: Result<(), AgentFilesystemScanError>,
)
    requires
        call_ensures(discovered_credential, (source,), descriptor),
        call_ensures(validate_descriptor, (&descriptor,), r),
    ensures
        descriptor.discovered_source_ref@ == source.source_ref@,
        descriptor.observed_revision == source.revision,
        descriptor.field_selector@ == "env.ANTHROPIC_AUTH_TOKEN"@,
        r is Ok <==> source.revision != 0,
{
}

/// A model is looked for under its own name first, and also without a selector in brackets at its
/// end; a preset's name is looked for too; no name twice.
pub proof fn models_are_looked_for_under_each_name(
    primary: &str,
    alias: Option<&str>,
    r: Vec<String>,
    bare: Seq<char>,
    selector: Seq<char>,
)
    requires
        call_ensures(registered_model_candidates, (primary, alias), r),
        bare.len() > 0,
        !selector.contains('['),
    ensures
        r@.len() > 0 && r@[0]@ == primary@,
        views_of(r@).no_duplicates(),
        primary@ == bare.push('[') + selector.push(']') ==> views_of(r@).contains(bare),
        alias matches Some(alias) ==> views_of(r@).contains(alias@) && (alias@ == bare.push('[')
            + selector.push(']') ==> views_of(r@).contains(bare)),
        forall|k: int|
            0 <= k < r@.len() ==> (#[trigger] r@[k])@ == primary@ || (alias matches Some(alias)
                && r@[k]@ == alias@) || without_selector(primary@) == Some(r@[k]@) || (
            alias matches Some(alias) && without_selector(alias@) == Some(r@[k]@)),
{
    let list = views_of(r@);
    assert(list.len() == r@.len());
    assert forall|i: int| 0 <= i < r@.len() implies list[i] == (#[trigger] r@[i])@ by {}
    lemma_selector(bare, selector);
    let none = Seq::<Seq<char>>::empty();
    lemma_with_model(none, primary@);
    let first = crate::agents::filesystem::with_model(none, primary@);
    assert(first[0] == primary@);
    if let Some(alias) = alias {
        lemma_with_model(first, alias@);
        assert(list[0] == primary@);
    }
    assert forall|k: int| 0 <= k < r@.len() implies (#[trigger] r@[k])@ == primary@ || (
    alias matches Some(alias) && r@[k]@ == alias@) || without_selector(primary@) == Some(r@[k]@)
        || (alias matches Some(alias) && without_selector(alias@) == Some(r@[k]@)) by {
        assert(list.contains(list[k]));
    }
}

proof fn lemma_with_new(list: Seq<Seq<char>>, text: Seq<char>)
    requires
        list.no_duplicates(),
    ensures
        ({
            let after = crate::agents::filesystem::with_new(list, text);
            &&& after.no_duplicates()
            &&& after.contains(text)
            &&& after.len() >= list.len() && forall|i: int|
                0 <= i < list.len() ==> #[trigger] after[i] == list[i]
            &&& forall|other: Seq<char>| #[trigger]
                after.contains(other) <==> list.contains(other) || other == text
        }),
{
    let after = crate::agents::filesystem::with_new(list, text);
    if !list.contains(text) {
        assert(after[after.len() - 1] == text);
        assert forall|other: Seq<char>| #[trigger] after.contains(other) <==> list.contains(other)
            || other == text by {
            if list.contains(other) {
                let i = choose|i: int| 0 <= i < list.len() && list[i] == other;
                assert(after[i] == other);
            }
            if after.contains(other) {
                let i = choose|i: int| 0 <= i < after.len() && after[i] == other;
                if i < list.len() {
                    assert(list[i] == other);
                }
            }
        }
        assert forall|i: int, j: int|
            0 <= i < after.len() && 0 <= j < after.len() && i != j implies after[i]
            != after[j] by {
            if i < list.len() && j < list.len() {
                assert(list[i] != list[j]);
            } else if i < list.len() {
                assert(list.contains(list[i]));
            } else {
                assert(list.contains(list[j]));
            }
        }
    }
}

proof fn lemma_with_model(list: Seq<Seq<char>>, model: Seq<char>)
    requires
        list.no_duplicates(),
    ensures
        ({
            let after = crate::agents::filesystem::with_model(list, model);
            &&& after.no_duplicates()
            &&& after.contains(model)
            &&& without_selector(model) matches Some(bare) ==> after.contains(bare)
            &&& after.len() >= list.len() && forall|i: int|
                0 <= i < list.len() ==> #[trigger] after[i] == list[i]
            &&& list.len() == 0 ==> after.len() > 0 && after[0] == model
            &&& forall|other: Seq<char>| #[trigger]
                after.contains(other) ==> list.contains(other) || other == model
                    || without_selector(model) == Some(other)
            &&& forall|other: Seq<char>| #[trigger]
                list.contains(other) ==> after.contains(other)
        }),
{
    lemma_with_new(list, model);
    let named = crate::agents::filesystem::with_new(list, model);
    if list.len() == 0 {
        assert(!list.contains(model));
        assert(named[0] == model);
    }
    if let Some(bare) = without_selector(model) {
        lemma_with_new(named, bare);
    }
    let after = crate::agents::filesystem::with_model(list, model);
    assert forall|other: Seq<char>| #[trigger] list.contains(other) implies after.contains(
        other,
    ) by {
        assert(named.contains(other));
    }
}

proof fn lemma_selector(bare: Seq<char>, selector: Seq<char>)
    requires
        bare.len() > 0,
        !selector.contains('['),
    ensures
        without_selector(bare.push('[') + selector.push(']')) == Some(bare),
{
    let name = bare.push('[') + selector.push(']');
    lemma_last_place(bare, selector.push(']'), '[');
    assert(!selector.push(']').contains('[')) by {
        if selector.push(']').contains('[') {
            let i = choose|i: int|
                0 <= i < selector.push(']').len() && selector.push(']')[i] == '[';
            if i < selector.len() {
                assert(selector[i] == '[');
            }
        }
    }
    assert(name.last() == ']');
    assert(name.take(bare.len() as int) =~= bare);
}

proof fn lemma_last_place(before: Seq<char>, after: Seq<char>, c: char)
    ensures
        !after.contains(c) ==> last_place(before.push(c) + after, c) == Some(before.len() as int),
    decreases after.len(),
{
    let all = before.push(c) + after;
    if after.len() == 0 {
        assert(all =~= before.push(c));
        assert(all.last() == c);
    } else if !after.contains(c) {
        let init = after.drop_last();
        assert(!init.contains(c)) by {
            if init.contains(c) {
                let i = choose|i: int| 0 <= i < init.len() && init[i] == c;
                assert(after[i] == c);
            }
        }
        lemma_last_place(before, init, c);
        assert(all.drop_last() =~= before.push(c) + init);
        assert(all.last() == after.last());
        assert(after.contains(after[after.len() - 1]));
    }
}

/// What a failed look for an executable is reported as.
pub proof fn failed_looks_are_reported(
    agent_id: &str,
    kind: AgentKindV1,
    failure: Option<ProbeFailure>,
    r: FilesystemAgentDiscoveryV1,
)
    requires
        call_ensures(probe_report, (agent_id, kind, failure), r),
    ensures
        r.outcome matches AgentDiscoveryOutcomeV1::ReportOnly {
            agent_id: id,
            kind: k,
            version,
            reason,
            ..
        } && id@ == agent_id@ && k == kind && version@.len() == 0 && (reason is NotFoundInScope
            <==> failure is None) && (reason is ExecutableNotRunnable <==> failure == Some(
            ProbeFailure::NotExecutable,
        )) && (reason is ExecutableProbeTimedOut <==> failure == Some(ProbeFailure::TimedOut)) && (
        reason is ExecutableProbeUnavailable <==> failure is Some && failure != Some(
            ProbeFailure::NotExecutable,
        ) && failure != Some(ProbeFailure::TimedOut)),
        r.configuration_issue is None && r.claude_configuration is None && r.managed_launch is None
            && r.discovered_credential is None,
{
}

/// Codex is supported only where its engine was located and its settings could be sampled; a
/// failure of either is what is reported.
pub proof fn codex_is_supported_where_it_was_located(
    engine: &Result<Option<String>, ProbeFailure>,
    sample: Result<Vec<ConfigObservationV1>, AgentFilesystemScanError>,
    profiles: &Vec<AgentProfileFacts>,
    r: FilesystemAgentDiscoveryV1,
)
    requires
        call_ensures(scan_codex, (engine, sample, profiles), r),
    ensures
        r.outcome is Supported ==> (*engine matches Ok(Some(_))) && sample is Ok && profiles@.len()
            == 1,
        (*engine matches Ok(None)) ==> (r.outcome matches AgentDiscoveryOutcomeV1::ReportOnly {
            reason,
            ..
        } && reason is NotFoundInScope),
        (*engine matches Ok(Some(_))) && sample == Err::<Vec<ConfigObservationV1>, _>(
            AgentFilesystemScanError::SymlinkConfig,
        ) ==> (r.outcome matches AgentDiscoveryOutcomeV1::ReportOnly { reason, .. } && reason
            is SymlinkConfig),
        (*engine matches Ok(Some(_))) && sample == Err::<Vec<ConfigObservationV1>, _>(
            AgentFilesystemScanError::WrongOwner,
        ) ==> (r.outcome matches AgentDiscoveryOutcomeV1::ReportOnly { reason, .. } && reason
            is WrongOwner),
        (*engine matches Ok(Some(_))) && sample == Err::<Vec<ConfigObservationV1>, _>(
            AgentFilesystemScanError::UnsafePermissions,
        ) ==> (r.outcome matches AgentDiscoveryOutcomeV1::ReportOnly { reason, .. } && reason
            is UnsafeConfigPermissions),
{
}

/// What a source says of a field.
pub open spec fn says(observed: ObservedView, field: SettingsField) -> Option<Seq<char>> {
    match field {
        SettingsField::BaseUrl => observed.settings.env.base_url,
        SettingsField::EnvironmentModel => observed.settings.env.model,
        SettingsField::DefaultOpusModel => observed.settings.env.default_opus_model,
        SettingsField::SelectedModel => observed.settings.model,
    }
}

pub open spec fn counts(observed: ObservedView, field: Option<SettingsField>) -> bool {
    match field {
        Some(field) => says(observed, field) is Some,
        None => observed.settings.env.present.contains("ANTHROPIC_AUTH_TOKEN"@),
    }
}

/// Whether the source at a place decides a field: it is the first of the nearest that have it.
pub open spec fn decides(
    values: Seq<ObservedView>,
    field: Option<SettingsField>,
    at: int,
) -> bool {
    let kind = AgentKindV1::ClaudeCode;
    &&& 0 <= at < values.len()
    &&& counts(values[at], field)
    &&& forall|i: int|
        0 <= i < values.len() && counts(#[trigger] values[i], field) ==> values[at].layer.rank_for(
            kind,
        ) <= values[i].layer.rank_for(kind) && (i < at ==> values[at].layer.rank_for(kind)
            < values[i].layer.rank_for(kind))
}

proof fn lemma_decides(values: Seq<ObservedView>, field: Option<SettingsField>)
    ensures
        match deciding(values, field) {
            Some(at) => decides(values, field, at),
            None => forall|i: int| 0 <= i < values.len() ==> !counts(#[trigger] values[i], field),
        },
    decreases values.len(),
{
    if values.len() > 0 {
        let init = values.drop_last();
        lemma_decides(init, field);
        assert(values[values.len() - 1] == values.last());
        assert(counts(values.last(), field) == has_field(values.last(), field));
        assert forall|i: int| 0 <= i < init.len() implies init[i] == #[trigger] values[i] by {}
        match deciding(values, field) {
            Some(at) => {
                assert forall|i: int|
                    0 <= i < values.len() && counts(#[trigger] values[i], field) implies
                    values[at].layer.rank_for(AgentKindV1::ClaudeCode) <= values[i].layer.rank_for(
                    AgentKindV1::ClaudeCode,
                ) && (i < at ==> values[at].layer.rank_for(AgentKindV1::ClaudeCode)
                    < values[i].layer.rank_for(AgentKindV1::ClaudeCode)) by {
                    if i < init.len() {
                        assert(counts(init[i], field));
                    }
                }
            },
            None => {
                assert forall|i: int| 0 <= i < values.len() implies !counts(
                    #[trigger] values[i],
                    field,
                ) by {
                    if i < init.len() {
                        assert(!counts(init[i], field));
                    }
                }
            },
        }
    }
}

/// What a scan starts from, seen as its sources.
pub open spec fn scan_of(
    executable: Option<&ExecutableObservationV1>,
    given: Option<AgentDiscoveryOutcomeV1>,
    read: Result<Vec<ObservedClaudeSettings>, AgentFilesystemScanError>,
    files: &Vec<String>,
    profiles: &Vec<AgentProfileFacts>,
    launch_removals: Option<&Vec<String>>,
) -> ScanView {
    ScanView {
        read: read_view(read),
        files: views_of(files@),
        profiles: profiles@,
        executable: executable_view(executable),
        given,
        launch_removals: removals_view(launch_removals),
    }
}

/// The registry is asked for the endpoint and the model that their own deciding sources say, of
/// which the later revision counts; a credential is that of the source that decides it.
pub proof fn scans_ask_for_what_is_decided(
    executable: Option<&ExecutableObservationV1>,
    given: Option<AgentDiscoveryOutcomeV1>,
    for_settings: bool,
    read: Result<Vec<ObservedClaudeSettings>, AgentFilesystemScanError>,
    files: &Vec<String>,
    profiles: &Vec<AgentProfileFacts>,
    launch_removals: Option<&Vec<String>>,
    r: ClaudeScanStep,
)
    requires
        call_ensures(
            start_claude_scan,
            (executable, given, for_settings, read, files, profiles, launch_removals),
            r,
        ),
        r is Ask,
    ensures
        ({
            let values = scan_of(executable, given, read, files, profiles, launch_removals).values();
            let pending = r->pending;
            &&& read is Ok
            &&& exists|e: int, m: int|
                #![trigger values[e], values[m]]
                decides(values, Some(SettingsField::BaseUrl), e) && decides(
                    values,
                    Some(SettingsField::EnvironmentModel),
                    m,
                ) && values[e].settings.env.base_url == Some(r->endpoint@)
                    && values[m].settings.env.model == Some(pending.model@)
                    && pending.configuration_revision >= values[e].revision
                    && pending.configuration_revision >= values[m].revision && (
                pending.configuration_revision == values[e].revision
                    || pending.configuration_revision == values[m].revision)
            &&& pending.credential matches Some(found) ==> exists|k: int|
                #![trigger values[k]]
                decides(values, None, k) && found.discovered_source_ref@ == values[k].source_ref
                    && found.observed_revision == values[k].revision
            &&& pending.credential is None ==> forall|k: int|
                0 <= k < values.len() ==> !counts(#[trigger] values[k], None)
            &&& pending.default_opus_model matches Some(opus) ==> exists|k: int|
                #![trigger values[k]]
                decides(values, Some(SettingsField::DefaultOpusModel), k)
                    && values[k].settings.env.default_opus_model == Some(opus@)
            &&& executable is Some ==> launch_removals is Some
        }),
{
    let scan = scan_of(executable, given, read, files, profiles, launch_removals);
    let values = scan.values();
    lemma_decides(values, Some(SettingsField::BaseUrl));
    lemma_decides(values, Some(SettingsField::EnvironmentModel));
    lemma_decides(values, Some(SettingsField::DefaultOpusModel));
    lemma_decides(values, None);
    let e = deciding(values, Some(SettingsField::BaseUrl))->0;
    let m = deciding(values, Some(SettingsField::EnvironmentModel))->0;
    assert(scan.decision() is Ask);
    assert(decides(values, Some(SettingsField::BaseUrl), e));
    assert(decides(values, Some(SettingsField::EnvironmentModel), m));
    assert(values[e].settings.env.base_url == Some(r->endpoint@));
    assert(values[m].settings.env.model == Some(r->pending.model@));
    if let Some(k) = deciding(values, None) {
        assert(decides(values, None, k));
        assert(values[k].source_ref == values[k].source_ref);
    }
    if let Some(k) = deciding(values, Some(SettingsField::DefaultOpusModel)) {
        assert(decides(values, Some(SettingsField::DefaultOpusModel), k));
        assert(values[k].source_ref == values[k].source_ref);
    }
}

/// A scan that does not ask says why, where something is wrong: settings that could not be read, or
/// sources that contradict each other, or a model that may not be told. Settings that are not read
/// are never reported as anything else.
pub proof fn scans_that_end_say_why(
    executable: Option<&ExecutableObservationV1>,
    given: Option<AgentDiscoveryOutcomeV1>,
    for_settings: bool,
    read: Result<Vec<ObservedClaudeSettings>, AgentFilesystemScanError>,
    files: &Vec<String>,
    profiles: &Vec<AgentProfileFacts>,
    launch_removals: Option<&Vec<String>>,
    r: ClaudeScanStep,
)
    requires
        call_ensures(
            start_claude_scan,
            (executable, given, for_settings, read, files, profiles, launch_removals),
            r,
        ),
    ensures
        r matches ClaudeScanStep::Done(found) ==> found.claude_configuration is None
            && found.discovered_credential is None && found.permission_hardening is None,
        read matches Err(error) ==> (r matches ClaudeScanStep::Done(found)
            && found.configuration_issue is Some && found.managed_launch is None && (error
            is SymlinkConfig ==> found.configuration_issue == Some(
            AgentReportOnlyReasonV1::SymlinkConfig,
        )) && (error is WrongOwner ==> found.configuration_issue == Some(
            AgentReportOnlyReasonV1::WrongOwner,
        )) && (error is UnsafePermissions ==> found.configuration_issue == Some(
            AgentReportOnlyReasonV1::UnsafeConfigPermissions,
        )) && (error is InvalidConfig || error is Io || error is ConfigTooLarge || error
            is SourceUnavailable || error is SourceChanged ==> found.configuration_issue == Some(
            AgentReportOnlyReasonV1::ConfigUnavailable,
        ))),
        read is Ok && (r matches ClaudeScanStep::Done(found) && (found.configuration_issue == Some(
            AgentReportOnlyReasonV1::UnregisteredModel,
        ))) ==> exists|m: int|
            #![trigger scan_of(executable, given, read, files, profiles, launch_removals).values()[m]]
            decides(
                scan_of(executable, given, read, files, profiles, launch_removals).values(),
                Some(SettingsField::EnvironmentModel),
                m,
            ) && !is_observed_model(
                scan_of(
                    executable,
                    given,
                    read,
                    files,
                    profiles,
                    launch_removals,
                ).values()[m].settings.env.model->0,
            ),
{
    let scan = scan_of(executable, given, read, files, profiles, launch_removals);
    let values = scan.values();
    lemma_decides(values, Some(SettingsField::EnvironmentModel));
    if read is Ok {
        if let ClaudeScanStep::Done(found) = r {
            if found.configuration_issue == Some(AgentReportOnlyReasonV1::UnregisteredModel) {
                assert(scan.decision() is BadModel);
                let m = deciding(values, Some(SettingsField::EnvironmentModel))->0;
                assert(decides(values, Some(SettingsField::EnvironmentModel), m));
                assert(values[m].source_ref == values[m].source_ref);
            }
        }
    }
}

/// A registered answer is told with what the registry has; the configured name is hinted at only
/// where the registry has another for it, and the preset's always.
pub proof fn registered_models_are_told(
    pending: PendingClaudeScan,
    answer: RegistryAnswer,
    r: FilesystemAgentDiscoveryV1,
)
    requires
        call_ensures(finish_claude_scan, (pending, answer), r),
    ensures
        r.claude_configuration is Some <==> answer is Found,
        answer matches RegistryAnswer::Found(registered) ==> {
            let found = r.claude_configuration->0;
            let hints = pairs_view(found.provider_model_alias_hints@);
            &&& r.configuration_issue is None && r.outcome == pending.outcome
            &&& found.base_url == registered.base_url
            &&& found.configuration_revision == pending.configuration_revision
            &&& found.observed_model_id@ == (match registered.resolved_upstream_model_id {
                Some(id) => id@,
                None => pending.model@,
            })
            &&& hints.contains(("configured_model"@, pending.model@)) <==>
                found.observed_model_id@ != pending.model@
            &&& pending.default_opus_model matches Some(opus) ==> hints.contains(
                ("default_opus_model"@, opus@),
            )
        },
        answer is NoModel ==> r.configuration_issue == Some(
            AgentReportOnlyReasonV1::UnregisteredModel,
        ),
        answer is NoEndpoint ==> r.configuration_issue == Some(
            AgentReportOnlyReasonV1::UnregisteredEndpoint,
        ),
        !(answer is Found) ==> r.discovered_credential is None && (r.outcome is Supported
            ==> pending.keeps_outcome),
{
    reveal_strlit("configured_model");
    reveal_strlit("default_opus_model");
    assert("configured_model"@.len() == 16 && "default_opus_model"@.len() == 18);
    if let RegistryAnswer::Found(registered) = answer {
        let found = r.claude_configuration->0;
        let hints = pairs_view(found.provider_model_alias_hints@);
        let resolved = found.observed_model_id@;
        assert(hints == hints_of(pending.model@, resolved, maybe_text(pending.default_opus_model)));
        if resolved != pending.model@ {
            assert(hints[0] == ("configured_model"@, pending.model@));
        }
        if let Some(opus) = pending.default_opus_model {
            assert(hints[hints.len() - 1] == ("default_opus_model"@, opus@));
        }
    }
}

/// The sources of a layout in the order in which they are observed: the process, the launch's, the
/// projects', the user's and the managed ones.
pub proof fn sources_are_observed_in_order(layout: &AgentFilesystemLayoutV1, r: Vec<ClaudeSource>)
    requires
        call_ensures(AgentFilesystemLayoutV1::claude_sources, (layout,), r),
    ensures
        r@.len() > 0 && r@[0] is Process,
        layout.claude_launch_settings is None ==> r@.len() == 2
            + layout.claude_project_settings@.len() + layout.claude_managed_settings@.len(),
        layout.claude_launch_settings matches Some(path) ==> r@.len() == 3
            + layout.claude_project_settings@.len() + layout.claude_managed_settings@.len() && (
        r@[1] matches ClaudeSource::File(layer, own) && layer is Launch && own@ == path@),
        forall|k: int|
            #![trigger layout.claude_project_settings@[k]]
            0 <= k < layout.claude_project_settings@.len() ==> ({
                let first = if layout.claude_launch_settings is Some {
                    2int
                } else {
                    1
                };
                r@[first + k] matches ClaudeSource::File(layer, own) && layer is Project && own@
                    == layout.claude_project_settings@[k]@
            }),
        ({
            let first = if layout.claude_launch_settings is Some {
                2int
            } else {
                1
            };
            r@[first + layout.claude_project_settings@.len()] matches ClaudeSource::File(
                layer,
                own,
            ) && layer is User && own@ == layout.claude_user_settings@
        }),
{
    let views = sources_view(r@);
    assert(views.len() == r@.len());
    assert forall|i: int| 0 <= i < r@.len() implies views[i]
        == crate::agents::claude_scan::source_view(#[trigger] r@[i]) by {}
    assert(views_of(layout.claude_project_settings@).len()
        == layout.claude_project_settings@.len());
    assert(views_of(layout.claude_managed_settings@).len()
        == layout.claude_managed_settings@.len());
    let first = if layout.claude_launch_settings is Some {
        2int
    } else {
        1
    };
    assert(views[0] is None);
    if layout.claude_launch_settings is Some {
        assert(views[1] == Some((ConfigLayerV1::Launch, layout.claude_launch_settings->0@)));
    }
    assert forall|k: int|
        #![trigger layout.claude_project_settings@[k]]
        0 <= k < layout.claude_project_settings@.len() implies (
    r@[first + k] matches ClaudeSource::File(layer, own) && layer is Project && own@
        == layout.claude_project_settings@[k]@) by {
        assert(views[first + k] == Some(
            (ConfigLayerV1::Project, layout.claude_project_settings@[k]@),
        ));
        assert(views[first + k] == crate::agents::claude_scan::source_view(r@[first + k]));
    }
    let at = first + layout.claude_project_settings@.len();
    assert(views[at] == Some((ConfigLayerV1::User, layout.claude_user_settings@)));
    assert(views[at] == crate::agents::claude_scan::source_view(r@[at]));
}

/// A described credential is read at the first source with its reference, in the variable that its
/// selector names.
pub proof fn credentials_are_read_where_described(
    descriptor: &DiscoveredCredentialRefV1,
    sources: &Vec<ClaudeSource>,
    r: Result<(usize, String), AgentFilesystemScanError>,
    valid: Result<(), AgentFilesystemScanError>,
)
    requires
        call_ensures(locate_credential, (descriptor, sources), r),
        call_ensures(validate_descriptor, (descriptor,), valid),
    ensures
        r matches Ok(found) ==> {
            &&& valid is Ok
            &&& found.0 < sources@.len()
            &&& source_ref_of(sources@[found.0 as int]) == descriptor.discovered_source_ref@
            &&& forall|i: int|
                0 <= i < found.0 ==> source_ref_of(#[trigger] sources@[i])
                    != descriptor.discovered_source_ref@
            &&& descriptor.field_selector@ == "env."@ + found.1@
        },
        valid is Ok && (exists|i: int|
            0 <= i < sources@.len() && source_ref_of(#[trigger] sources@[i])
                == descriptor.discovered_source_ref@) ==> r is Ok,
{
    lemma_place_of_source(sources@, descriptor.discovered_source_ref@);
    if let Ok(found) = r {
        reveal_strlit("env.");
        let whole = descriptor.field_selector@;
        assert(whole =~= whole.take(4) + whole.skip(4));
    }
}

proof fn lemma_place_of_source(sources: Seq<ClaudeSource>, reference: Seq<char>)
    ensures
        match place_of_source(sources, reference) {
            Some(at) => 0 <= at < sources.len() && source_ref_of(sources[at]) == reference
                && forall|i: int|
                0 <= i < at ==> source_ref_of(#[trigger] sources[i]) != reference,
            None => forall|i: int|
                0 <= i < sources.len() ==> source_ref_of(#[trigger] sources[i]) != reference,
        },
    decreases sources.len(),
{
    if sources.len() > 0 {
        let init = sources.drop_last();
        lemma_place_of_source(init, reference);
        assert(sources[sources.len() - 1] == sources.last());
        assert forall|i: int| 0 <= i < init.len() implies init[i] == #[trigger] sources[i] by {}
    }
}

/// A credential that was read counts only at the revision that was observed.
pub proof fn changed_credentials_do_not_count(
    descriptor: &DiscoveredCredentialRefV1,
    revision: u64,
    r: Result<(), AgentFilesystemScanError>,
)
    requires
        call_ensures(accept_credential, (descriptor, revision), r),
    ensures
        r is Ok <==> revision == descriptor.observed_revision,
        r matches Err(error) ==> error is SourceChanged,
{
}

/// An agent's models can be used where its own executables are: Codex in its command and in its
/// application, ClaudeCode in its command.
pub proof fn surfaces_are_the_agents_own(
    agent_id: &str,
    codex_cli: bool,
    codex_desktop: bool,
    claude_cli: bool,
    r: Vec<AgentModelSurfaceV2>,
)
    requires
        call_ensures(
            available_model_surfaces,
            (agent_id, codex_cli, codex_desktop, claude_cli),
            r,
        ),
    ensures
        r@.contains(AgentModelSurfaceV2::CodexCli) <==> agent_id@ == "agent_codex_default"@
            && codex_cli,
        r@.contains(AgentModelSurfaceV2::CodexDesktop) <==> agent_id@ == "agent_codex_default"@
            && codex_desktop,
        r@.contains(AgentModelSurfaceV2::ClaudeCli) <==> agent_id@ == "agent_claude_default"@
            && claude_cli,
{
    reveal_strlit("agent_codex_default");
    reveal_strlit("agent_claude_default");
    assert("agent_codex_default"@.len() != "agent_claude_default"@.len());
    if agent_id@ == "agent_codex_default"@ {
        if codex_cli {
            assert(r@[0] == AgentModelSurfaceV2::CodexCli);
        }
        if codex_desktop {
            assert(r@[r@.len() - 1] == AgentModelSurfaceV2::CodexDesktop);
        }
    }
    if agent_id@ == "agent_claude_default"@ && claude_cli {
        assert(r@[0] == AgentModelSurfaceV2::ClaudeCli);
    }
}

/// The engine of each surface is the layout's own for it.
pub proof fn engines_belong_to_their_surface(
    layout: &AgentFilesystemLayoutV1,
    surface: AgentModelSurfaceV2,
    r: Option<String>,
)
    requires
        call_ensures(codex_engine_target, (layout, surface), r),
    ensures
        surface is CodexCli ==> (r matches Some(path) && path@ == layout.codex_executable@),
        surface is CodexDesktop ==> (r is Some <==> layout.codex_desktop_executable is Some) && (
        r matches Some(path) ==> path@ == layout.codex_desktop_executable->0@),
        surface is ClaudeCli ==> r is None,
{
}

/// The installation behind an applied change is told only where the change is applied, the
/// executable is located, and the sources do not contradict each other.
pub proof fn applied_changes_show_their_installation(
    is_applied: bool,
    located: Result<Option<Option<String>>, ProbeFailure>,
    files: &Vec<String>,
    observations: &Vec<ObservedClaudeSettings>,
    profiles: &Vec<AgentProfileFacts>,
    r: Result<(AgentDiscoveryOutcomeV1, String), AgentFilesystemScanError>,
)
    requires
        call_ensures(
            claude_installation_for_applied_user_change,
            (is_applied, located, files, observations, profiles),
            r,
        ),
    ensures
        r matches Ok(found) ==> is_applied && (located matches Ok(Some(Some(path))) && path
            == found.1) && (found.0 matches AgentDiscoveryOutcomeV1::Supported {
            agent_id,
            kind,
            version,
            capability_evidence,
            ..
        } && agent_id@ == "agent_claude_default"@ && kind is ClaudeCode && version@
            == "not-probed"@ && capability_evidence@.len() == 0),
        !is_applied ==> (r matches Err(error) && error is SourceChanged),
        is_applied && !(located matches Ok(Some(Some(_)))) ==> (r matches Err(error) && error
            is SourceUnavailable),
{
    if let Ok(found) = r {
        if let AgentDiscoveryOutcomeV1::Supported { capability_evidence, .. } = found.0 {
            assert(evidence_view(capability_evidence@).len() == capability_evidence@.len());
        }
    }
}

/// Where the settings of a process are: the two project files, the local one first, in the agent's
/// directory; the user's in the directory that the environment names, or else in the home; and
/// those of Codex likewise.
pub proof fn layouts_follow_the_environment(
    home: &str,
    project: &str,
    claude_config_dir: Option<&str>,
    codex_home: Option<&str>,
    managed: Vec<String>,
    environment: Vec<(String, String)>,
    presence: Vec<String>,
    r: AgentFilesystemLayoutV1,
)
    requires
        call_ensures(
            AgentFilesystemLayoutV1::from_process,
            (home, project, claude_config_dir, codex_home, managed, environment, presence),
            r,
        ),
    ensures
        claude_config_dir matches Some(directory) ==> (directory@.len() > 0 && directory@.last()
            != '/' ==> r.claude_user_settings@ == directory@ + "/"@ + "settings.json"@),
        codex_home matches Some(directory) ==> (directory@.len() > 0 && directory@.last() != '/'
            ==> r.codex_user_config@ == directory@ + "/"@ + "config.toml"@),
        codex_home is None && home@.len() > 0 && home@.last() != '/' ==> r.codex_user_config@
            == home@ + "/"@ + ".codex"@ + "/"@ + "config.toml"@,
        r.claude_project_settings@.len() == 2,
        project@.len() > 0 && project@.last() != '/' ==> r.claude_project_settings@[0]@ == project@
            + "/"@ + (own_directory() + "/settings.local.json"@)
            && r.claude_project_settings@[1]@ == project@ + "/"@ + (own_directory()
            + "/settings.json"@),
        r.claude_launch_settings is None && r.codex_desktop_executable is None,
        r.codex_executable@ == "codex"@,
        r.claude_managed_settings == managed && r.process_environment == environment,
{
    let files = views_of(r.claude_project_settings@);
    assert(files.len() == r.claude_project_settings@.len());
    assert(files[0] == r.claude_project_settings@[0]@);
    assert(files[1] == r.claude_project_settings@[1]@);
    if codex_home is None && home@.len() > 0 && home@.last() != '/' {
        reveal_strlit(".codex");
        let base = home@ + "/"@ + ".codex"@;
        assert(base.last() == 'x');
    }
}

/// How a file is shown: by its layer and its name, never by where it is.
pub proof fn files_are_shown_without_their_place(layer: ConfigLayerV1, path: &str, r: String)
    requires
        call_ensures(display_path, (layer, path), r),
    ensures
        layer is Process ==> r@ == "process environment"@,
        layer is Launch ==> r@ == "launch/"@ + file_name_of(path@),
        layer is Managed ==> r@ == "managed/"@ + file_name_of(path@),
        layer is Project ==> r@ == own_directory() + "/"@ + file_name_of(path@),
        layer is User ==> r@ == "~/"@ + (own_directory() + "/"@) + file_name_of(path@),
{
}

/// A finding is acted on only where this scanner made it, for a settings file, with a revision.
pub proof fn only_own_findings_are_acted_on(
    finding: &PermissionHardeningRequiredV1,
    r: Result<(), AgentFilesystemScanError>,
)
    requires
        call_ensures(validate_hardening_finding, (finding,), r),
    ensures
        r is Ok <==> finding.scanner_id@ == "builtin.agent-filesystem"@ && finding.scanner_version@
            == "1"@ && after_prefix(
            finding.discovered_source_ref@,
            own_name() + "/settings/"@,
        ) is Some && finding.observed_revision > 0 && finding.required_mode == 0o600,
{
}

/// The results of a scan stand in the order of their agents.
pub proof fn results_stand_in_order(
    first: FilesystemAgentDiscoveryV1,
    other: FilesystemAgentDiscoveryV1,
    r: Vec<FilesystemAgentDiscoveryV1>,
)
    requires
        call_ensures(scan_results, (first, other), r),
    ensures
        r@.len() == 2,
        r@.contains(first) && r@.contains(other),
        !precedes(agent_id_of(r@[1].outcome), agent_id_of(r@[0].outcome)) || !precedes(
            agent_id_of(r@[0].outcome),
            agent_id_of(r@[1].outcome),
        ),
        precedes(agent_id_of(other.outcome), agent_id_of(first.outcome)) ==> r@[0] == other,
        !precedes(agent_id_of(other.outcome), agent_id_of(first.outcome)) ==> r@[0] == first,
{
    if precedes(agent_id_of(other.outcome), agent_id_of(first.outcome)) {
        assert(r@[0] == other && r@[1] == first);
        lemma_one_way(agent_id_of(other.outcome), agent_id_of(first.outcome));
    } else {
        assert(r@[0] == first && r@[1] == other);
    }
}

proof fn lemma_one_way(a: Seq<char>, b: Seq<char>)
    requires
        precedes(a, b),
    ensures
        !precedes(b, a),
    decreases a.len(),
{
    if a.len() > 0 && a[0] == b[0] {
        lemma_one_way(a.skip(1), b.skip(1));
    }
}

} // verus!
