//! Scanning the local file system for agents and their settings.

use vstd::prelude::*;
use crate::agents::claude_files::{
    PermissionHardeningRequiredV1, FILESYSTEM_AGENT_SCANNER_ID_V1,
    FILESYSTEM_AGENT_SCANNER_VERSION_V1,
};
use crate::agents::claude_observation::present;
use crate::agents::claude_settings::{maybe_text, ObservedClaudeSettings};
use crate::agents::discovery::{
    effective_config_of, identity_on, observations_view, report_reason_on,
    resolve_agent_observation, AgentDiscoveryOutcomeV1, AgentKindV1, AgentProfileFacts,
    AgentReportOnlyReasonV1, AgentScanObservationV1, ConfigObservationV1, ObservationView,
    AGENT_SCAN_OBSERVATION_SCHEMA_V1,
};
use crate::agents::executable::ProbeFailure;
use crate::agents::managed_launch::ManagedClaudeLaunchPreflightV1;
use crate::digest::{digest_of, CanonicalDigest};
use crate::text::{
    byte_len, bytes_in, chars_of, comes_before, find_last, last_place, precedes, same, text_of,
    views_of,
};

verus! {

/// Why a scan of a settings file failed.
#[derive(Clone, Copy, Debug, PartialEq, Eq, Structural)]
pub enum AgentFilesystemScanError {
    SymlinkConfig,
    WrongOwner,
    UnsafePermissions,
    InvalidConfig,
    ConfigTooLarge,
    SourceUnavailable,
    SourceChanged,
    InvalidDescriptor,
    InvalidRegistry,
    Io,
}

impl AgentFilesystemScanError {
    pub open spec fn message_text(self) -> Seq<char> {
        match self {
            AgentFilesystemScanError::SymlinkConfig => "Agent configuration is a symlink"@,
            AgentFilesystemScanError::WrongOwner => {
                "Agent configuration is owned by another user"@
            },
            AgentFilesystemScanError::UnsafePermissions => {
                "Agent configuration permissions expose protected values"@
            },
            AgentFilesystemScanError::InvalidConfig => "Agent configuration is invalid"@,
            AgentFilesystemScanError::ConfigTooLarge => {
                "Agent configuration exceeds the scanner bound"@
            },
            AgentFilesystemScanError::SourceUnavailable => "discovered source is unavailable"@,
            AgentFilesystemScanError::SourceChanged => "discovered source changed"@,
            AgentFilesystemScanError::InvalidDescriptor => {
                "discovered source descriptor is invalid"@
            },
            AgentFilesystemScanError::InvalidRegistry => "Release registry is invalid"@,
            AgentFilesystemScanError::Io => "Agent configuration I/O failed"@,
        }
    }

    pub fn message(&self) -> (r: String)
        ensures
            r@ == self.message_text(),
    {
        match self {
            AgentFilesystemScanError::SymlinkConfig => {
                "Agent configuration is a symlink".to_owned()
            },
            AgentFilesystemScanError::WrongOwner => {
                "Agent configuration is owned by another user".to_owned()
            },
            AgentFilesystemScanError::UnsafePermissions => {
                "Agent configuration permissions expose protected values".to_owned()
            },
            AgentFilesystemScanError::InvalidConfig => {
                "Agent configuration is invalid".to_owned()
            },
            AgentFilesystemScanError::ConfigTooLarge => {
                "Agent configuration exceeds the scanner bound".to_owned()
            },
            AgentFilesystemScanError::SourceUnavailable => {
                "discovered source is unavailable".to_owned()
            },
            AgentFilesystemScanError::SourceChanged => "discovered source changed".to_owned(),
            AgentFilesystemScanError::InvalidDescriptor => {
                "discovered source descriptor is invalid".to_owned()
            },
            AgentFilesystemScanError::InvalidRegistry => "Release registry is invalid".to_owned(),
            AgentFilesystemScanError::Io => "Agent configuration I/O failed".to_owned(),
        }
    }

    /// What a failed scan is reported as.
    pub open spec fn reason(self) -> AgentReportOnlyReasonV1 {
        match self {
            AgentFilesystemScanError::SymlinkConfig => AgentReportOnlyReasonV1::SymlinkConfig,
            AgentFilesystemScanError::WrongOwner => AgentReportOnlyReasonV1::WrongOwner,
            AgentFilesystemScanError::UnsafePermissions => {
                AgentReportOnlyReasonV1::UnsafeConfigPermissions
            },
            _ => AgentReportOnlyReasonV1::ConfigUnavailable,
        }
    }

    pub fn report_reason(&self) -> (r: AgentReportOnlyReasonV1)
        ensures
            r == self.reason(),
    {
        match self {
            AgentFilesystemScanError::SymlinkConfig => AgentReportOnlyReasonV1::SymlinkConfig,
            AgentFilesystemScanError::WrongOwner => AgentReportOnlyReasonV1::WrongOwner,
            AgentFilesystemScanError::UnsafePermissions => {
                AgentReportOnlyReasonV1::UnsafeConfigPermissions
            },
            _ => AgentReportOnlyReasonV1::ConfigUnavailable,
        }
    }
}

/// A reference to a credential that was found. It holds no secret.
#[derive(Debug)]
pub struct DiscoveredCredentialRefV1 {
    pub source: String,
    pub scanner_id: String,
    pub scanner_version: String,
    pub discovered_source_ref: String,
    pub field_selector: String,
    pub observed_revision: u64,
}

/// A configuration of ClaudeCode whose endpoint and model are registered. The hints are in the
/// order of their names.
#[derive(Debug)]
pub struct RegisteredClaudeConfigurationV1 {
    pub connection_option_id: String,
    pub endpoint_profile_id: String,
    pub endpoint_profile_revision: u64,
    pub model_configuration_id: Option<String>,
    pub base_url: String,
    pub observed_model_id: String,
    pub provider_model_alias_hints: Vec<(String, String)>,
    pub configuration_revision: u64,
}

/// What a scan found of an agent. What the executable is does not decide whether its settings are
/// recognised.
#[derive(Debug)]
pub struct FilesystemAgentDiscoveryV1 {
    pub outcome: AgentDiscoveryOutcomeV1,
    pub configuration_issue: Option<AgentReportOnlyReasonV1>,
    pub claude_configuration: Option<RegisteredClaudeConfigurationV1>,
    pub discovered_credential: Option<DiscoveredCredentialRefV1>,
    pub permission_hardening: Option<PermissionHardeningRequiredV1>,
    pub managed_launch: Option<ManagedClaudeLaunchPreflightV1>,
}

pub open spec fn is_descriptor(descriptor: DiscoveredCredentialRefV1) -> bool {
    descriptor.source@ == "discovered_config"@ && descriptor.scanner_id@
        == FILESYSTEM_AGENT_SCANNER_ID_V1@ && descriptor.scanner_version@
        == FILESYSTEM_AGENT_SCANNER_VERSION_V1@ && (descriptor.field_selector@
        == "env.ANTHROPIC_AUTH_TOKEN"@ || descriptor.field_selector@ == "env.ANTHROPIC_API_KEY"@)
        && descriptor.observed_revision != 0
}

pub fn validate_descriptor(descriptor: &DiscoveredCredentialRefV1) -> (r: Result<
    (),
    AgentFilesystemScanError,
>)
    ensures
        if is_descriptor(*descriptor) {
            r is Ok
        } else {
            r matches Err(error) && error == AgentFilesystemScanError::InvalidDescriptor
        },
{
    if !same(descriptor.source.as_str(), "discovered_config") || !same(
        descriptor.scanner_id.as_str(),
        FILESYSTEM_AGENT_SCANNER_ID_V1,
    ) || !same(descriptor.scanner_version.as_str(), FILESYSTEM_AGENT_SCANNER_VERSION_V1) || !(same(
        descriptor.field_selector.as_str(),
        "env.ANTHROPIC_AUTH_TOKEN",
    ) || same(descriptor.field_selector.as_str(), "env.ANTHROPIC_API_KEY"))
        || descriptor.observed_revision == 0 {
        return Err(AgentFilesystemScanError::InvalidDescriptor);
    }
    Ok(())
}

pub open spec fn is_credential_of(
    descriptor: DiscoveredCredentialRefV1,
    reference: Seq<char>,
    revision: u64,
) -> bool {
    descriptor.source@ == "discovered_config"@ && descriptor.scanner_id@
        == FILESYSTEM_AGENT_SCANNER_ID_V1@ && descriptor.scanner_version@
        == FILESYSTEM_AGENT_SCANNER_VERSION_V1@ && descriptor.discovered_source_ref@ == reference
        && descriptor.field_selector@ == "env.ANTHROPIC_AUTH_TOKEN"@
        && descriptor.observed_revision == revision
}

/// The reference to the credential of a source.
pub fn discovered_credential(source: &ObservedClaudeSettings) -> (r: DiscoveredCredentialRefV1)
    ensures
        is_credential_of(r, source.source_ref@, source.revision),
{
    DiscoveredCredentialRefV1 {
        source: "discovered_config".to_owned(),
        scanner_id: FILESYSTEM_AGENT_SCANNER_ID_V1.to_owned(),
        scanner_version: FILESYSTEM_AGENT_SCANNER_VERSION_V1.to_owned(),
        discovered_source_ref: source.source_ref.clone(),
        field_selector: "env.ANTHROPIC_AUTH_TOKEN".to_owned(),
        observed_revision: source.revision,
    }
}

/// A model's name without a selector in brackets at its end.
pub open spec fn without_selector(name: Seq<char>) -> Option<Seq<char>> {
    match last_place(name, '[') {
        Some(k) => if k > 0 && k + 1 < name.len() && name.last() == ']' {
            Some(name.take(k))
        } else {
            None
        },
        None => None,
    }
}

fn strip_selector(name: &str) -> (r: Option<String>)
    ensures
        maybe_text(r) == without_selector(name@),
{
    let chars = chars_of(name);
    match find_last(name, '[') {
        Some(at) => {
            assert(at < chars.len());
            if at > 0 && at + 1 < chars.len() && chars[chars.len() - 1] == ']' {
                let head = vstd::slice::slice_subrange(chars.as_slice(), 0, at);
                assert(head@ == name@.take(at as int));
                return Some(text_of(head));
            }
            None
        },
        None => None,
    }
}

pub open spec fn with_new(list: Seq<Seq<char>>, text: Seq<char>) -> Seq<Seq<char>> {
    if list.contains(text) {
        list
    } else {
        list.push(text)
    }
}

pub open spec fn with_model(list: Seq<Seq<char>>, model: Seq<char>) -> Seq<Seq<char>> {
    let named = with_new(list, model);
    match without_selector(model) {
        Some(bare) => with_new(named, bare),
        None => named,
    }
}

/// The names under which a model may be registered: the configured one and that of a preset, each
/// also without its selector.
pub open spec fn model_candidates(primary: Seq<char>, alias: Option<Seq<char>>) -> Seq<Seq<char>> {
    let list = with_model(Seq::empty(), primary);
    match alias {
        Some(alias) => with_model(list, alias),
        None => list,
    }
}

fn push_new(list: &mut Vec<String>, text: &str)
    ensures
        views_of(final(list)@) == with_new(views_of(old(list)@), text@),
{
    let ghost before = views_of(list@);
    if !present(list, text) {
        list.push(text.to_owned());
        assert(views_of(list@) =~= before.push(text@));
    }
}

fn push_model(list: &mut Vec<String>, model: &str)
    ensures
        views_of(final(list)@) == with_model(views_of(old(list)@), model@),
{
    push_new(list, model);
    match strip_selector(model) {
        Some(bare) => push_new(list, bare.as_str()),
        None => {},
    }
}

pub fn registered_model_candidates(primary: &str, alias: Option<&str>) -> (r: Vec<String>)
    ensures
        views_of(r@) == model_candidates(
            primary@,
            match alias {
                Some(alias) => Some(alias@),
                None => None,
            },
        ),
{
    let mut list: Vec<String> = Vec::new();
    assert(views_of(list@) =~= Seq::<Seq<char>>::empty());
    push_model(&mut list, primary);
    match alias {
        Some(alias) => push_model(&mut list, alias),
        None => {},
    }
    list
}

pub open spec fn is_control(c: char) -> bool {
    (c as int) < 32 || 127 <= (c as int) < 160
}

fn control(c: char) -> (r: bool)
    ensures
        r == is_control(c),
{
    let code = c as u32;
    code < 32 || (127 <= code && code < 160)
}

/// Whether a model's name may be told: not empty, at most 256 bytes, without control characters and
/// without dots or slashes in a row.
pub open spec fn is_observed_model(value: Seq<char>) -> bool {
    value.len() > 0 && byte_len(value) <= 256 && (forall|i: int|
        0 <= i < value.len() ==> !is_control(#[trigger] value[i])) && (forall|i: int|
        0 < i < value.len() ==> !((value[i - 1] == '.' && #[trigger] value[i] == '.') || (value[i
            - 1] == '/' && value[i] == '/')))
}

pub fn valid_observed_model(value: &str) -> (r: bool)
    ensures
        r == is_observed_model(value@),
{
    let chars = chars_of(value);
    if chars.len() == 0 || bytes_in(value) > 256 {
        return false;
    }
    let mut i: usize = 0;
    while i < chars.len()
        invariant
            i <= chars.len(),
            chars@ == value@,
            forall|j: int| 0 <= j < i ==> !is_control(#[trigger] value@[j]),
            forall|j: int|
                0 < j < i ==> !((value@[j - 1] == '.' && #[trigger] value@[j] == '.') || (value@[j
                    - 1] == '/' && value@[j] == '/')),
        decreases chars.len() - i,
    {
        let c = chars[i];
        if control(c) {
            assert(is_control(value@[i as int]));
            return false;
        }
        if i > 0 && ((chars[i - 1] == '.' && c == '.') || (chars[i - 1] == '/' && c == '/')) {
            assert(value@[i as int] == c);
            return false;
        }
        i += 1;
    }
    true
}

impl AgentReportOnlyReasonV1 {
    pub open spec fn label(self) -> Seq<char> {
        match self {
            AgentReportOnlyReasonV1::NotFoundInScope => "NotFoundInScope"@,
            AgentReportOnlyReasonV1::ExecutableNotRunnable => "ExecutableNotRunnable"@,
            AgentReportOnlyReasonV1::ExecutableProbeTimedOut => "ExecutableProbeTimedOut"@,
            AgentReportOnlyReasonV1::ExecutableProbeUnavailable => "ExecutableProbeUnavailable"@,
            AgentReportOnlyReasonV1::UnknownObservationSchema => "UnknownObservationSchema"@,
            AgentReportOnlyReasonV1::UnknownProfile => "UnknownProfile"@,
            AgentReportOnlyReasonV1::AmbiguousProfile => "AmbiguousProfile"@,
            AgentReportOnlyReasonV1::ConflictingEffectiveConfig => "ConflictingEffectiveConfig"@,
            AgentReportOnlyReasonV1::InvalidObservation => "InvalidObservation"@,
            AgentReportOnlyReasonV1::SymlinkConfig => "SymlinkConfig"@,
            AgentReportOnlyReasonV1::WrongOwner => "WrongOwner"@,
            AgentReportOnlyReasonV1::UnsafeConfigPermissions => "UnsafeConfigPermissions"@,
            AgentReportOnlyReasonV1::PermissionHardeningRequired => "PermissionHardeningRequired"@,
            AgentReportOnlyReasonV1::ConfigUnavailable => "ConfigUnavailable"@,
            AgentReportOnlyReasonV1::UnregisteredEndpoint => "UnregisteredEndpoint"@,
            AgentReportOnlyReasonV1::UnregisteredModel => "UnregisteredModel"@,
        }
    }

    pub fn label_text(self) -> (r: &'static str)
        ensures
            r@ == self.label(),
    {
        match self {
            AgentReportOnlyReasonV1::NotFoundInScope => "NotFoundInScope",
            AgentReportOnlyReasonV1::ExecutableNotRunnable => "ExecutableNotRunnable",
            AgentReportOnlyReasonV1::ExecutableProbeTimedOut => "ExecutableProbeTimedOut",
            AgentReportOnlyReasonV1::ExecutableProbeUnavailable => "ExecutableProbeUnavailable",
            AgentReportOnlyReasonV1::UnknownObservationSchema => "UnknownObservationSchema",
            AgentReportOnlyReasonV1::UnknownProfile => "UnknownProfile",
            AgentReportOnlyReasonV1::AmbiguousProfile => "AmbiguousProfile",
            AgentReportOnlyReasonV1::ConflictingEffectiveConfig => "ConflictingEffectiveConfig",
            AgentReportOnlyReasonV1::InvalidObservation => "InvalidObservation",
            AgentReportOnlyReasonV1::SymlinkConfig => "SymlinkConfig",
            AgentReportOnlyReasonV1::WrongOwner => "WrongOwner",
            AgentReportOnlyReasonV1::UnsafeConfigPermissions => "UnsafeConfigPermissions",
            AgentReportOnlyReasonV1::PermissionHardeningRequired => "PermissionHardeningRequired",
            AgentReportOnlyReasonV1::ConfigUnavailable => "ConfigUnavailable",
            AgentReportOnlyReasonV1::UnregisteredEndpoint => "UnregisteredEndpoint",
            AgentReportOnlyReasonV1::UnregisteredModel => "UnregisteredModel",
        }
    }
}

/// Whether an outcome only reports an agent, for a reason.
pub open spec fn is_report(
    outcome: AgentDiscoveryOutcomeV1,
    id: Seq<char>,
    agent_kind: AgentKindV1,
    told_version: Seq<char>,
    why: AgentReportOnlyReasonV1,
) -> bool {
    outcome matches AgentDiscoveryOutcomeV1::ReportOnly {
        agent_id,
        kind,
        version,
        reason,
        observation_digest,
    } && agent_id@ == id && kind == agent_kind && version@ == told_version && reason == why
        && observation_digest@ == digest_of(
        vstd::utf8::encode_utf8(
            "agent-report-only\0"@ + id + "\0"@ + told_version + "\0"@ + why.label(),
        ),
    )
}

/// Reports an agent.
pub fn report_only_outcome(
    agent_id: &str,
    kind: AgentKindV1,
    version: &str,
    reason: AgentReportOnlyReasonV1,
) -> (r: AgentDiscoveryOutcomeV1)
    ensures
        is_report(r, agent_id@, kind, version@, reason),
{
    let mut text = "agent-report-only\0".to_owned();
    text.append(agent_id);
    text.append("\0");
    text.append(version);
    text.append("\0");
    text.append(reason.label_text());
    AgentDiscoveryOutcomeV1::ReportOnly {
        agent_id: agent_id.to_owned(),
        kind,
        version: version.to_owned(),
        reason,
        observation_digest: CanonicalDigest::of_bytes(text.as_str().as_bytes()),
    }
}

pub open spec fn is_bare(found: FilesystemAgentDiscoveryV1) -> bool {
    found.configuration_issue is None && found.claude_configuration is None
        && found.discovered_credential is None && found.permission_hardening is None
        && found.managed_launch is None
}

fn bare(outcome: AgentDiscoveryOutcomeV1) -> (r: FilesystemAgentDiscoveryV1)
    ensures
        r.outcome == outcome,
        is_bare(r),
{
    FilesystemAgentDiscoveryV1 {
        outcome,
        configuration_issue: None,
        claude_configuration: None,
        discovered_credential: None,
        permission_hardening: None,
        managed_launch: None,
    }
}

pub fn report_only_agent(
    agent_id: &str,
    kind: AgentKindV1,
    version: &str,
    reason: AgentReportOnlyReasonV1,
) -> (r: FilesystemAgentDiscoveryV1)
    ensures
        is_report(r.outcome, agent_id@, kind, version@, reason),
        is_bare(r),
{
    bare(report_only_outcome(agent_id, kind, version, reason))
}

/// What a failed location or probe is reported as; `None` is an executable that is nowhere.
pub open spec fn probe_reason(failure: Option<ProbeFailure>) -> AgentReportOnlyReasonV1 {
    match failure {
        None => AgentReportOnlyReasonV1::NotFoundInScope,
        Some(ProbeFailure::NotExecutable) => AgentReportOnlyReasonV1::ExecutableNotRunnable,
        Some(ProbeFailure::TimedOut) => AgentReportOnlyReasonV1::ExecutableProbeTimedOut,
        Some(_) => AgentReportOnlyReasonV1::ExecutableProbeUnavailable,
    }
}

pub fn probe_report(agent_id: &str, kind: AgentKindV1, failure: Option<ProbeFailure>) -> (r:
    FilesystemAgentDiscoveryV1)
    ensures
        is_report(r.outcome, agent_id@, kind, Seq::empty(), probe_reason(failure)),
        is_bare(r),
{
    let reason = match failure {
        None => AgentReportOnlyReasonV1::NotFoundInScope,
        Some(ProbeFailure::NotExecutable) => AgentReportOnlyReasonV1::ExecutableNotRunnable,
        Some(ProbeFailure::TimedOut) => AgentReportOnlyReasonV1::ExecutableProbeTimedOut,
        Some(_) => AgentReportOnlyReasonV1::ExecutableProbeUnavailable,
    };
    proof {
        reveal_strlit("");
        assert(""@ =~= Seq::<char>::empty());
    }
    report_only_agent(agent_id, kind, "", reason)
}

pub open spec fn agent_id_of(outcome: AgentDiscoveryOutcomeV1) -> Seq<char> {
    match outcome {
        AgentDiscoveryOutcomeV1::Supported { agent_id, .. } => agent_id@,
        AgentDiscoveryOutcomeV1::ReportOnly { agent_id, .. } => agent_id@,
    }
}

pub fn outcome_agent_id(outcome: &AgentDiscoveryOutcomeV1) -> (r: &str)
    ensures
        r@ == agent_id_of(*outcome),
{
    match outcome {
        AgentDiscoveryOutcomeV1::Supported { agent_id, .. } => agent_id.as_str(),
        AgentDiscoveryOutcomeV1::ReportOnly { agent_id, .. } => agent_id.as_str(),
    }
}

/// The results of a scan in the order of their agents.
pub fn scan_results(first: FilesystemAgentDiscoveryV1, other: FilesystemAgentDiscoveryV1) -> (r: Vec<
    FilesystemAgentDiscoveryV1,
>)
    ensures
        if precedes(agent_id_of(other.outcome), agent_id_of(first.outcome)) {
            r@ == seq![other, first]
        } else {
            r@ == seq![first, other]
        },
{
    let mut results: Vec<FilesystemAgentDiscoveryV1> = Vec::new();
    if comes_before(outcome_agent_id(&other.outcome), outcome_agent_id(&first.outcome)) {
        results.push(other);
        results.push(first);
    } else {
        results.push(first);
        results.push(other);
    }
    results
}

/// Whether an outcome is that of the observed settings of Codex.
pub open spec fn is_codex_outcome(
    outcome: AgentDiscoveryOutcomeV1,
    config: Seq<ObservationView>,
    profiles: Seq<AgentProfileFacts>,
) -> bool {
    let id = "agent_codex_default"@;
    match report_reason_on(AGENT_SCAN_OBSERVATION_SCHEMA_V1@, id, config, profiles) {
        Some(why) => outcome matches AgentDiscoveryOutcomeV1::ReportOnly {
            agent_id,
            kind,
            version,
            reason,
            observation_digest,
        } && agent_id@ == id && kind == AgentKindV1::Codex && version@ == "not-probed"@ && reason
            == why && observation_digest@ == identity_on(
            AGENT_SCAN_OBSERVATION_SCHEMA_V1@,
            id,
            AgentKindV1::Codex,
            config,
        ),
        None => outcome matches AgentDiscoveryOutcomeV1::Supported {
            agent_id,
            kind,
            version,
            effective_config,
            observation_digest,
            capability_evidence,
        } && capability_evidence@.len() == 0 && agent_id@ == id && kind == AgentKindV1::Codex && version@ == "not-probed"@
            && observations_view(effective_config@) == effective_config_of(
            config,
            views_of(profiles[0].owned_paths@),
            AgentKindV1::Codex,
        ) && observation_digest@ == identity_on(
            AGENT_SCAN_OBSERVATION_SCHEMA_V1@,
            id,
            AgentKindV1::Codex,
            config,
        ),
    }
}

/// Judges a scan of Codex: where its engine is, and what its settings say. The engine is located,
/// never run.
pub fn scan_codex(
    engine: &Result<Option<String>, ProbeFailure>,
    sample: Result<Vec<ConfigObservationV1>, AgentFilesystemScanError>,
    profiles: &Vec<AgentProfileFacts>,
) -> (r: FilesystemAgentDiscoveryV1)
    ensures
        is_bare(r),
        match engine {
            Ok(Some(_)) => match sample {
                Ok(config) => is_codex_outcome(
                    r.outcome,
                    observations_view(config@),
                    profiles@,
                ),
                Err(error) => is_report(
                    r.outcome,
                    "agent_codex_default"@,
                    AgentKindV1::Codex,
                    "not-probed"@,
                    error.reason(),
                ),
            },
            Ok(None) => is_report(
                r.outcome,
                "agent_codex_default"@,
                AgentKindV1::Codex,
                Seq::empty(),
                AgentReportOnlyReasonV1::NotFoundInScope,
            ),
            Err(failure) => is_report(
                r.outcome,
                "agent_codex_default"@,
                AgentKindV1::Codex,
                Seq::empty(),
                probe_reason(Some(*failure)),
            ),
        },
{
    match engine {
        Ok(Some(_)) => match sample {
            Ok(config) => bare(
                resolve_agent_observation(
                    AgentScanObservationV1 {
                        schema: AGENT_SCAN_OBSERVATION_SCHEMA_V1.to_owned(),
                        agent_id: "agent_codex_default".to_owned(),
                        kind: AgentKindV1::Codex,
                        version: "not-probed".to_owned(),
                        config,
                    },
                    profiles,
                ),
            ),
            Err(error) => report_only_agent(
                "agent_codex_default",
                AgentKindV1::Codex,
                "not-probed",
                error.report_reason(),
            ),
        },
        Ok(None) => probe_report("agent_codex_default", AgentKindV1::Codex, None),
        Err(failure) => probe_report("agent_codex_default", AgentKindV1::Codex, Some(*failure)),
    }
}

} // verus!
