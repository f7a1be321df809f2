//! The scan of ClaudeCode: from the settings sources of a layout to a registered configuration.
//!
//! A scan runs in two parts. The first reads the observed sources and either ends the scan or asks
//! for an endpoint and a model in the registry; the second makes the result of the answer.

use vstd::prelude::*;
use crate::agents::claude_files::{
    below_own_directory, own_directory, own_name, settings_ref, source_ref,
};
use crate::agents::claude_main::{
    is_ambiguous, is_claude_outcome, is_main_outcome, main_claude_observation, main_identity,
    resolve_project_local_fields, resolved_on, told_config, with_digest,
};
use crate::agents::claude_observation::{
    copied_option, deciding, field_of, observed_view, select_effective, SettingsField,
};
use crate::agents::claude_settings::{
    maybe_text, pairs_view, source_ref_of, ClaudeSource, ObservedClaudeSettings, ObservedView,
};
use crate::agents::discovery::{
    report_reason_on, AgentDiscoveryOutcomeV1, AgentKindV1, AgentProfileFacts,
    AgentReportOnlyReasonV1, ConfigLayerV1, AGENT_SCAN_OBSERVATION_SCHEMA_V1,
};
use crate::agents::executable::{join_path, joined, ExecutableObservationV1, ProbeFailure};
use crate::agents::filesystem::{
    discovered_credential, is_credential_of, is_descriptor, is_observed_model, is_report,
    model_candidates, registered_model_candidates, report_only_outcome, valid_observed_model,
    validate_descriptor, AgentFilesystemScanError, DiscoveredCredentialRefV1,
    FilesystemAgentDiscoveryV1, RegisteredClaudeConfigurationV1,
};
use crate::agents::managed_launch::{
    conflicts_of, conflicts_view, inherited_of, preflight_json, ManagedClaudeLaunchPreflightV1,
};
use crate::json::{
    array_view, canonical_digest, canonical_digest_of, lemma_array_view, Json, JsonView,
};
use crate::paths::is_absolute;
use crate::text::{after_prefix, in_order, ordered, same, strip_prefix, views_of};

verus! {

/// Where the agents of a host and their settings are, and what the process's environment says of
/// ClaudeCode.
#[derive(Debug)]
pub struct AgentFilesystemLayoutV1 {
    pub codex_executable: String,
    /// The engine of the desktop application, where that is installed.
    pub codex_desktop_executable: Option<String>,
    pub claude_executable: String,
    pub codex_user_config: String,
    pub claude_launch_settings: Option<String>,
    pub claude_project_settings: Vec<String>,
    pub claude_user_settings: String,
    pub claude_managed_settings: Vec<String>,
    pub process_environment: Vec<(String, String)>,
    pub process_environment_presence: Vec<String>,
}

pub open spec fn or_below(configured: Option<Seq<char>>, home: Seq<char>, name: Seq<char>) -> Seq<
    char,
> {
    match configured {
        Some(path) => if path.len() > 0 {
            path
        } else {
            joined(home, name)
        },
        None => joined(home, name),
    }
}

fn configured_or_below(configured: Option<&str>, home: &str, name: &str) -> (r: String)
    requires
        !is_absolute(name@),
    ensures
        r@ == or_below(
            (match configured {
                Some(path) => Some(path@),
                None => None,
            }),
            home@,
            name@,
        ),
{
    proof {
        reveal_strlit("");
    }
    match configured {
        Some(path) => {
            if !same(path, "") {
                proof {
                    if path@.len() == 0 {
                        assert(path@ =~= ""@);
                    }
                }
                return path.to_owned();
            }
        },
        None => {},
    }
    join_path(home, name)
}

/// The user's configuration file of Codex.
pub fn codex_config_path(home: &str, configured: Option<&str>) -> (r: String)
    ensures
        r@ == joined(
            or_below(
                (match configured {
                    Some(path) => Some(path@),
                    None => None,
                }),
                home@,
                ".codex"@,
            ),
            "config.toml"@,
        ),
{
    proof {
        reveal_strlit(".codex");
        reveal_strlit("config.toml");
    }
    join_path(configured_or_below(configured, home, ".codex").as_str(), "config.toml")
}

impl AgentFilesystemLayoutV1 {
    /// The layout of a process: the home and project directories, the two directories that the
    /// environment may name, the managed files of the system, and the environment itself. The names
    /// that are present stand in order, each once.
    pub fn from_process(
        home: &str,
        project: &str,
        claude_config_dir: Option<&str>,
        codex_home: Option<&str>,
        claude_managed_settings: Vec<String>,
        process_environment: Vec<(String, String)>,
        process_environment_presence: Vec<String>,
    ) -> (r: Self)
        ensures
            r.codex_executable@ == "codex"@,
            r.codex_desktop_executable is None,
            r.claude_executable@ == own_name(),
            r.codex_user_config@ == joined(
                or_below(
                    (match codex_home {
                        Some(path) => Some(path@),
                        None => None,
                    }),
                    home@,
                    ".codex"@,
                ),
                "config.toml"@,
            ),
            r.claude_launch_settings is None,
            views_of(r.claude_project_settings@) == seq![
                joined(project@, own_directory() + "/settings.local.json"@),
                joined(project@, own_directory() + "/settings.json"@),
            ],
            r.claude_user_settings@ == joined(
                or_below(
                    (match claude_config_dir {
                        Some(path) => Some(path@),
                        None => None,
                    }),
                    home@,
                    own_directory(),
                ),
                "settings.json"@,
            ),
            r.claude_managed_settings == claude_managed_settings,
            r.process_environment == process_environment,
            views_of(r.process_environment_presence@) == in_order(
                views_of(process_environment_presence@),
            ),
    {
        proof {
            reveal_strlit(".");
            reveal_strlit("settings.json");
            assert(own_directory()[0] == '.');
            assert((own_directory() + "/settings.local.json"@)[0] == '.');
            assert((own_directory() + "/settings.json"@)[0] == '.');
        }
        let mut directory = ".".to_owned();
        directory.append(AgentKindV1::ClaudeCode.command_text().as_str());
        let mut claude_project_settings: Vec<String> = Vec::new();
        claude_project_settings.push(join_path(project, below_own_directory("/settings.local.json").as_str()));
        claude_project_settings.push(join_path(project, below_own_directory("/settings.json").as_str()));
        assert(views_of(claude_project_settings@) =~= seq![
            joined(project@, own_directory() + "/settings.local.json"@),
            joined(project@, own_directory() + "/settings.json"@),
        ]);
        AgentFilesystemLayoutV1 {
            codex_executable: "codex".to_owned(),
            codex_desktop_executable: None,
            claude_executable: AgentKindV1::ClaudeCode.command_text(),
            codex_user_config: codex_config_path(home, codex_home),
            claude_launch_settings: None,
            claude_project_settings,
            claude_user_settings: join_path(
                configured_or_below(claude_config_dir, home, directory.as_str()).as_str(),
                "settings.json",
            ),
            claude_managed_settings,
            process_environment,
            process_environment_presence: ordered(&process_environment_presence),
        }
    }

    /// The settings sources in order, each by its layer and path; the environment comes first and
    /// has no path.
    pub open spec fn sources(&self) -> Seq<Option<(ConfigLayerV1, Seq<char>)>> {
        let project = views_of(self.claude_project_settings@).map_values(
            |path: Seq<char>| Some((ConfigLayerV1::Project, path)),
        );
        let managed = views_of(self.claude_managed_settings@).map_values(
            |path: Seq<char>| Some((ConfigLayerV1::Managed, path)),
        );
        (match self.claude_launch_settings {
            Some(path) => seq![None, Some((ConfigLayerV1::Launch, path@))],
            None => seq![None],
        }) + project + seq![Some((ConfigLayerV1::User, self.claude_user_settings@))] + managed
    }

    pub fn claude_sources(&self) -> (r: Vec<ClaudeSource>)
        ensures
            sources_view(r@) == self.sources(),
    {
        let mut sources: Vec<ClaudeSource> = Vec::new();
        sources.push(ClaudeSource::Process);
        match &self.claude_launch_settings {
            Some(path) => {
                sources.push(ClaudeSource::File(ConfigLayerV1::Launch, path.clone()));
            },
            None => {},
        }
        proof {
            assert(sources_view(sources@) =~= (match self.claude_launch_settings {
                Some(path) => seq![None, Some((ConfigLayerV1::Launch, path@))],
                None => seq![None],
            }));
        }
        push_files(&mut sources, ConfigLayerV1::Project, &self.claude_project_settings);
        let ghost before = sources_view(sources@);
        sources.push(
            ClaudeSource::File(ConfigLayerV1::User, self.claude_user_settings.clone()),
        );
        assert(sources_view(sources@) =~= before + seq![
            Some((ConfigLayerV1::User, self.claude_user_settings@)),
        ]);
        push_files(&mut sources, ConfigLayerV1::Managed, &self.claude_managed_settings);
        proof {
            assert(files_view(ConfigLayerV1::Project, views_of(self.claude_project_settings@))
                =~= views_of(self.claude_project_settings@).map_values(
                |path: Seq<char>| Some((ConfigLayerV1::Project, path)),
            ));
            assert(files_view(ConfigLayerV1::Managed, views_of(self.claude_managed_settings@))
                =~= views_of(self.claude_managed_settings@).map_values(
                |path: Seq<char>| Some((ConfigLayerV1::Managed, path)),
            ));
        }
        sources
    }
}

pub open spec fn source_view(source: ClaudeSource) -> Option<(ConfigLayerV1, Seq<char>)> {
    match source {
        ClaudeSource::Process => None,
        ClaudeSource::File(layer, path) => Some((layer, path@)),
    }
}

pub open spec fn sources_view(sources: Seq<ClaudeSource>) -> Seq<
    Option<(ConfigLayerV1, Seq<char>)>,
> {
    sources.map_values(|source: ClaudeSource| source_view(source))
}

pub open spec fn files_view(layer: ConfigLayerV1, paths: Seq<Seq<char>>) -> Seq<
    Option<(ConfigLayerV1, Seq<char>)>,
> {
    paths.map_values(|path: Seq<char>| Some((layer, path)))
}

fn push_files(sources: &mut Vec<ClaudeSource>, layer: ConfigLayerV1, paths: &Vec<String>)
    ensures
        sources_view(final(sources)@) == sources_view(old(sources)@) + files_view(
            layer,
            views_of(paths@),
        ),
{
    let ghost start = sources_view(sources@);
    let ghost all = views_of(paths@);
    let mut i: usize = 0;
    assert(start + files_view(layer, all.take(0)) =~= start);
    while i < paths.len()
        invariant
            i <= paths.len(),
            all == views_of(paths@),
            sources_view(sources@) == start + files_view(layer, all.take(i as int)),
        decreases paths.len() - i,
    {
        let ghost before = sources_view(sources@);
        sources.push(ClaudeSource::File(layer, paths[i].clone()));
        proof {
            assert(sources_view(sources@) =~= before.push(Some((layer, all[i as int]))));
            assert(files_view(layer, all.take(i + 1)) =~= files_view(
                layer,
                all.take(i as int),
            ).push(Some((layer, all[i as int]))));
        }
        i += 1;
    }
    assert(all.take(i as int) == all);
}

/// A model and an endpoint as the registry has them.
#[derive(Debug)]
pub struct RegisteredModel {
    pub connection_option_id: String,
    pub endpoint_profile_id: String,
    pub endpoint_profile_revision: u64,
    pub model_configuration_id: Option<String>,
    pub base_url: String,
    pub resolved_upstream_model_id: Option<String>,
}

/// What the registry says of an endpoint and the names of a model.
#[derive(Debug)]
pub enum RegistryAnswer {
    Found(RegisteredModel),
    /// The endpoint is registered, the model is not.
    NoModel,
    NoEndpoint,
}

/// What the first part of a scan keeps for the second.
#[derive(Debug)]
pub struct PendingClaudeScan {
    pub outcome: AgentDiscoveryOutcomeV1,
    pub managed_launch: Option<ManagedClaudeLaunchPreflightV1>,
    pub version: String,
    pub keeps_outcome: bool,
    pub model: String,
    pub default_opus_model: Option<String>,
    pub configuration_revision: u64,
    pub credential: Option<DiscoveredCredentialRefV1>,
}

#[derive(Debug)]
pub enum ClaudeScanStep {
    Done(FilesystemAgentDiscoveryV1),
    /// The registry is to be asked for an endpoint and one of the names of a model.
    Ask { endpoint: String, candidates: Vec<String>, pending: PendingClaudeScan },
}

/// How the first part of a scan goes on.
pub enum Decision {
    Unreadable(AgentFilesystemScanError),
    /// The agent has no managed launch.
    Unmanaged,
    Ambiguous,
    /// No endpoint or no model is configured.
    Unconfigured,
    BadModel,
    Ask { endpoint: int, model: int },
}

/// What a scan starts from.
pub struct ScanView {
    pub read: Result<Seq<ObservedView>, AgentFilesystemScanError>,
    pub files: Seq<Seq<char>>,
    pub profiles: Seq<AgentProfileFacts>,
    pub executable: Option<(Seq<char>, Seq<char>)>,
    pub given: Option<AgentDiscoveryOutcomeV1>,
    pub launch_removals: Option<Seq<Seq<char>>>,
}

impl ScanView {
    /// The sources as the main agent sees them.
    pub open spec fn values(self) -> Seq<ObservedView> {
        resolved_on(self.read->Ok_0, self.files, self.files.len() as int)
    }

    pub open spec fn version(self) -> Seq<char> {
        match self.executable {
            Some((version, _)) => version,
            None => Seq::empty(),
        }
    }

    /// Whether the installation is supported.
    pub open spec fn is_supported(self) -> bool {
        match self.given {
            Some(outcome) => outcome is Supported,
            None => report_reason_on(
                AGENT_SCAN_OBSERVATION_SCHEMA_V1@,
                "agent_claude_default"@,
                told_config(self.values(), self.profiles),
                self.profiles,
            ) is None,
        }
    }

    /// The preflight of a managed launch. It looks at the sources as they are, whatever the version
    /// of the executable.
    pub open spec fn preflight(self) -> Option<JsonView> {
        match (self.executable, self.launch_removals) {
            (Some((_, path)), Some(removals)) => Some(
                preflight_json(
                    path,
                    in_order(inherited_of(self.read->Ok_0, removals)),
                    conflicts_of(self.read->Ok_0),
                ),
            ),
            _ => None,
        }
    }

    pub open spec fn decision(self) -> Decision {
        match self.read {
            Err(error) => Decision::Unreadable(error),
            Ok(_) => {
                let values = self.values();
                let endpoint = deciding(values, Some(SettingsField::BaseUrl));
                let model = deciding(values, Some(SettingsField::EnvironmentModel));
                if self.executable is Some && (!self.is_supported()
                    || self.launch_removals is None) {
                    Decision::Unmanaged
                } else if is_ambiguous(values, self.profiles) {
                    Decision::Ambiguous
                } else if endpoint is None || model is None {
                    Decision::Unconfigured
                } else if !is_observed_model(
                    field_of(values[model->0].settings, SettingsField::EnvironmentModel)->0,
                ) {
                    Decision::BadModel
                } else {
                    Decision::Ask { endpoint: endpoint->0, model: model->0 }
                }
            },
        }
    }
}

/// The identity of an installation that can be launched.
pub open spec fn launch_identity(digest: Seq<char>, preflight: Option<JsonView>) -> Seq<char> {
    match preflight {
        Some(preflight) => canonical_digest_of(
            JsonView::Array(
                seq![
                    JsonView::Str("hiroute.managed-launch-observation/v1"@),
                    JsonView::Str(digest),
                    preflight,
                ],
            ),
        ),
        None => digest,
    }
}

/// Whether an outcome is a given one, its identity bound to a preflight.
pub open spec fn is_bound(
    outcome: AgentDiscoveryOutcomeV1,
    given: AgentDiscoveryOutcomeV1,
    preflight: Option<JsonView>,
) -> bool {
    match given {
        AgentDiscoveryOutcomeV1::Supported {
            agent_id,
            kind,
            version,
            effective_config,
            observation_digest,
            capability_evidence,
        } => outcome matches AgentDiscoveryOutcomeV1::Supported {
            agent_id: a,
            kind: k,
            version: v,
            effective_config: e,
            observation_digest: d,
            capability_evidence: c,
        } && a == agent_id && k == kind && v == version && e == effective_config && d@
            == launch_identity(observation_digest@, preflight) && c == capability_evidence,
        _ => outcome == given,
    }
}

/// Whether an outcome is that of a scan: the one that was given, else that of the sources.
pub open spec fn is_scan_outcome(
    outcome: AgentDiscoveryOutcomeV1,
    scan: ScanView,
    preflight: Option<JsonView>,
) -> bool {
    match scan.given {
        Some(given) => is_bound(outcome, given, preflight),
        None => is_claude_outcome(
            outcome,
            scan.version(),
            scan.values(),
            scan.profiles,
            launch_identity(main_identity(scan.version(), scan.values(), false), preflight),
            main_identity(scan.version(), scan.values(), false),
        ),
    }
}

pub open spec fn preflight_view(preflight: Option<ManagedClaudeLaunchPreflightV1>) -> Option<
    JsonView,
> {
    match preflight {
        Some(preflight) => Some(
            preflight_json(
                preflight.executable@,
                views_of(preflight.inherited_environment_removals@),
                conflicts_view(preflight.conflicts@),
            ),
        ),
        None => None,
    }
}

/// Whether an outcome is kept, or a report for a reason where it may not be kept.
pub open spec fn is_outcome_or_report(
    outcome: AgentDiscoveryOutcomeV1,
    scan: ScanView,
    keeps: bool,
    why: AgentReportOnlyReasonV1,
) -> bool {
    if keeps {
        is_scan_outcome(outcome, scan, scan.preflight())
    } else {
        is_report(outcome, "agent_claude_default"@, AgentKindV1::ClaudeCode, scan.version(), why)
    }
}

pub open spec fn is_unregistered(found: FilesystemAgentDiscoveryV1) -> bool {
    found.claude_configuration is None && found.discovered_credential is None
        && found.permission_hardening is None
}

fn bind(outcome: AgentDiscoveryOutcomeV1, preflight: &ManagedClaudeLaunchPreflightV1) -> (r:
    AgentDiscoveryOutcomeV1)
    requires
        preflight.wf(),
    ensures
        is_bound(r, outcome, preflight_view(Some(*preflight))),
{
    let digest = match &outcome {
        AgentDiscoveryOutcomeV1::Supported { observation_digest, .. } => {
            let mut parts: Vec<Json> = Vec::new();
            parts.push(Json::Str("hiroute.managed-launch-observation/v1".to_owned()));
            parts.push(Json::Str(observation_digest.as_str().to_owned()));
            parts.push(preflight.to_json());
            proof {
                lemma_array_view(parts@);
                assert(array_view(parts@) =~= seq![
                    JsonView::Str("hiroute.managed-launch-observation/v1"@),
                    JsonView::Str(observation_digest@),
                    preflight_view(Some(*preflight))->0,
                ]);
            }
            canonical_digest(&Json::Array(parts))
        },
        AgentDiscoveryOutcomeV1::ReportOnly { observation_digest, .. } => observation_digest.copied(),
    };
    with_digest(outcome, digest)
}

proof fn lemma_main_bound(
    outcome: AgentDiscoveryOutcomeV1,
    before: AgentDiscoveryOutcomeV1,
    version: Seq<char>,
    values: Seq<ObservedView>,
    profiles: Seq<AgentProfileFacts>,
    preflight: Option<JsonView>,
)
    requires
        is_main_outcome(before, version, values, false, profiles),
        is_bound(outcome, before, preflight),
    ensures
        is_claude_outcome(
            outcome,
            version,
            values,
            profiles,
            launch_identity(main_identity(version, values, false), preflight),
            main_identity(version, values, false),
        ),
{
}

fn ended(
    outcome: AgentDiscoveryOutcomeV1,
    configuration_issue: Option<AgentReportOnlyReasonV1>,
    managed_launch: Option<ManagedClaudeLaunchPreflightV1>,
) -> (r: FilesystemAgentDiscoveryV1)
    ensures
        r.outcome == outcome,
        r.configuration_issue == configuration_issue,
        r.managed_launch == managed_launch,
        is_unregistered(r),
{
    FilesystemAgentDiscoveryV1 {
        outcome,
        configuration_issue,
        claude_configuration: None,
        discovered_credential: None,
        permission_hardening: None,
        managed_launch,
    }
}

pub open spec fn executable_view(executable: Option<&ExecutableObservationV1>) -> Option<
    (Seq<char>, Seq<char>),
> {
    match executable {
        Some(found) => Some((found.version@, found.canonical_path@)),
        None => None,
    }
}

pub open spec fn read_view(
    read: Result<Vec<ObservedClaudeSettings>, AgentFilesystemScanError>,
) -> Result<Seq<ObservedView>, AgentFilesystemScanError> {
    match read {
        Ok(observations) => Ok(observed_view(observations@)),
        Err(error) => Err(error),
    }
}

pub open spec fn removals_view(removals: Option<&Vec<String>>) -> Option<Seq<Seq<char>>> {
    match removals {
        Some(removals) => Some(views_of(removals@)),
        None => None,
    }
}

/// Whether what is kept for the second part follows from the sources.
pub open spec fn is_pending(
    pending: PendingClaudeScan,
    scan: ScanView,
    for_settings: bool,
    endpoint: int,
    model: int,
) -> bool {
    let values = scan.values();
    let opus = deciding(values, Some(SettingsField::DefaultOpusModel));
    let secret = deciding(values, None);
    &&& is_scan_outcome(pending.outcome, scan, scan.preflight())
    &&& preflight_view(pending.managed_launch) == scan.preflight()
    &&& pending.version@ == scan.version()
    &&& pending.keeps_outcome == (scan.given is Some || for_settings)
    &&& Some(pending.model@) == field_of(
        values[model].settings,
        SettingsField::EnvironmentModel,
    )
    &&& maybe_text(pending.default_opus_model) == (match opus {
        Some(i) => field_of(values[i].settings, SettingsField::DefaultOpusModel),
        None => None,
    })
    &&& pending.configuration_revision == (if values[endpoint].revision < values[model].revision {
        values[model].revision
    } else {
        values[endpoint].revision
    })
    &&& match secret {
        Some(i) => pending.credential matches Some(found) && is_credential_of(
            found,
            values[i].source_ref,
            values[i].revision,
        ),
        None => pending.credential is None,
    }
}

/// The first part of a scan. `given` is the outcome of an executable that could not be probed;
/// `launch_removals` the variables that a managed launch of the agent takes out.
pub fn start_claude_scan(
    executable: Option<&ExecutableObservationV1>,
    given: Option<AgentDiscoveryOutcomeV1>,
    for_settings: bool,
    read: Result<Vec<ObservedClaudeSettings>, AgentFilesystemScanError>,
    files: &Vec<String>,
    profiles: &Vec<AgentProfileFacts>,
    launch_removals: Option<&Vec<String>>,
) -> (r: ClaudeScanStep)
    ensures
        ({
            let scan = ScanView {
                read: read_view(read),
                files: views_of(files@),
                profiles: profiles@,
                executable: executable_view(executable),
                given,
                launch_removals: removals_view(launch_removals),
            };
            let keeps = given is Some || for_settings;
            match scan.decision() {
                Decision::Unreadable(error) => r matches ClaudeScanStep::Done(found)
                    && is_unregistered(found) && found.managed_launch is None
                    && found.configuration_issue == Some(error.reason()) && (match given {
                    Some(outcome) => found.outcome == outcome,
                    None => is_report(
                        found.outcome,
                        "agent_claude_default"@,
                        AgentKindV1::ClaudeCode,
                        scan.version(),
                        error.reason(),
                    ),
                }),
                Decision::Unmanaged => r matches ClaudeScanStep::Done(found) && is_unregistered(
                    found,
                ) && found.managed_launch is None && found.configuration_issue is None
                    && is_scan_outcome(found.outcome, scan, None),
                Decision::Ambiguous => r matches ClaudeScanStep::Done(found) && is_unregistered(
                    found,
                ) && preflight_view(found.managed_launch) == scan.preflight()
                    && found.configuration_issue == Some(
                    AgentReportOnlyReasonV1::ConflictingEffectiveConfig,
                ) && is_scan_outcome(found.outcome, scan, scan.preflight()),
                Decision::Unconfigured => r matches ClaudeScanStep::Done(found)
                    && is_unregistered(found) && preflight_view(found.managed_launch)
                    == scan.preflight() && found.configuration_issue is None && is_scan_outcome(
                    found.outcome,
                    scan,
                    scan.preflight(),
                ),
                Decision::BadModel => r matches ClaudeScanStep::Done(found) && is_unregistered(
                    found,
                ) && preflight_view(found.managed_launch) == scan.preflight()
                    && found.configuration_issue == Some(
                    AgentReportOnlyReasonV1::UnregisteredModel,
                ) && is_outcome_or_report(
                    found.outcome,
                    scan,
                    keeps,
                    AgentReportOnlyReasonV1::UnregisteredModel,
                ),
                Decision::Ask { endpoint, model } => r matches ClaudeScanStep::Ask {
                    endpoint: asked,
                    candidates,
                    pending,
                } && is_pending(pending, scan, for_settings, endpoint, model) && Some(asked@)
                    == field_of(scan.values()[endpoint].settings, SettingsField::BaseUrl)
                    && views_of(candidates@) == model_candidates(
                    pending.model@,
                    maybe_text(pending.default_opus_model),
                ),
            }
        }),
{
    let ghost scan = ScanView {
        read: read_view(read),
        files: views_of(files@),
        profiles: profiles@,
        executable: executable_view(executable),
        given,
        launch_removals: removals_view(launch_removals),
    };
    let version = match executable {
        Some(found) => found.version.clone(),
        None => String::new(),
    };
    proof {
        assert(version@ =~= scan.version());
    }
    let keeps_outcome = given.is_some() || for_settings;
    let observations = match read {
        Ok(observations) => observations,
        Err(error) => {
            let reason = error.report_reason();
            let outcome = match given {
                Some(outcome) => outcome,
                None => report_only_outcome(
                    "agent_claude_default",
                    AgentKindV1::ClaudeCode,
                    version.as_str(),
                    reason,
                ),
            };
            return ClaudeScanStep::Done(ended(outcome, Some(reason), None));
        },
    };
    let main = resolve_project_local_fields(files, &observations);
    let ghost values = scan.values();
    assert(observed_view(main@) == values);
    let (observed_outcome, ambiguous) = main_claude_observation(version.as_str(), &main, profiles);
    let outcome = match given {
        Some(outcome) => outcome,
        None => observed_outcome,
    };
    let ghost unbound = outcome;
    proof {
        assert(is_scan_outcome(unbound, scan, None));
        assert(scan.is_supported() == (unbound is Supported));
    }
    let (outcome, managed_launch) = match executable {
        Some(found) => {
            let supported = match &outcome {
                AgentDiscoveryOutcomeV1::Supported { .. } => true,
                AgentDiscoveryOutcomeV1::ReportOnly { .. } => false,
            };
            match launch_removals {
                Some(removals) => {
                    if !supported {
                        return ClaudeScanStep::Done(ended(outcome, None, None));
                    }
                    let preflight = ManagedClaudeLaunchPreflightV1::from_observations(
                        found.canonical_path.clone(),
                        removals,
                        &observations,
                    );
                    assert(preflight_view(Some(preflight)) == scan.preflight());
                    let bound = bind(outcome, &preflight);
                    proof {
                        if scan.given is None {
                            lemma_main_bound(
                                bound,
                                unbound,
                                scan.version(),
                                values,
                                scan.profiles,
                                scan.preflight(),
                            );
                        }
                    }
                    (bound, Some(preflight))
                },
                None => {
                    return ClaudeScanStep::Done(ended(outcome, None, None));
                },
            }
        },
        None => (outcome, None),
    };
    proof {
        assert(is_scan_outcome(outcome, scan, scan.preflight()));
        assert(preflight_view(managed_launch) == scan.preflight());
    }
    if ambiguous {
        return ClaudeScanStep::Done(
            ended(
                outcome,
                Some(AgentReportOnlyReasonV1::ConflictingEffectiveConfig),
                managed_launch,
            ),
        );
    }
    let endpoint_at = select_effective(&main, Some(SettingsField::BaseUrl));
    let model_at = select_effective(&main, Some(SettingsField::EnvironmentModel));
    let (endpoint_at, model_at) = match (endpoint_at, model_at) {
        (Some(endpoint_at), Some(model_at)) => (endpoint_at, model_at),
        _ => {
            return ClaudeScanStep::Done(ended(outcome, None, managed_launch));
        },
    };
    proof {
        assert(values[endpoint_at as int] == main@[endpoint_at as int]@);
        assert(values[model_at as int] == main@[model_at as int]@);
    }
    let (endpoint, model) = match (
        &main[endpoint_at].settings.env.base_url,
        &main[model_at].settings.env.model,
    ) {
        (Some(endpoint), Some(model)) => (endpoint, model),
        _ => {
            return ClaudeScanStep::Done(ended(outcome, None, managed_launch));
        },
    };
    if !valid_observed_model(model.as_str()) {
        let outcome = if keeps_outcome {
            outcome
        } else {
            report_only_outcome(
                "agent_claude_default",
                AgentKindV1::ClaudeCode,
                version.as_str(),
                AgentReportOnlyReasonV1::UnregisteredModel,
            )
        };
        return ClaudeScanStep::Done(
            ended(outcome, Some(AgentReportOnlyReasonV1::UnregisteredModel), managed_launch),
        );
    }
    let default_opus_model = match select_effective(&main, Some(SettingsField::DefaultOpusModel)) {
        Some(i) => {
            assert(values[i as int] == main@[i as int]@);
            copied_option(&main[i].settings.env.default_opus_model)
        },
        None => None,
    };
    let credential = match select_effective(&main, None) {
        Some(i) => {
            assert(values[i as int] == main@[i as int]@);
            Some(discovered_credential(&main[i]))
        },
        None => None,
    };
    let first = main[endpoint_at].revision;
    let second = main[model_at].revision;
    let configuration_revision = if first < second {
        second
    } else {
        first
    };
    let candidates = match &default_opus_model {
        Some(alias) => registered_model_candidates(model.as_str(), Some(alias.as_str())),
        None => registered_model_candidates(model.as_str(), None),
    };
    ClaudeScanStep::Ask {
        endpoint: endpoint.clone(),
        candidates,
        pending: PendingClaudeScan {
            outcome,
            managed_launch,
            version,
            keeps_outcome,
            model: model.clone(),
            default_opus_model,
            configuration_revision,
            credential,
        },
    }
}

/// The hints of a configuration: the configured name where the registry has another, and that of
/// the preset.
pub open spec fn hints_of(model: Seq<char>, resolved: Seq<char>, opus: Option<Seq<char>>) -> Seq<
    (Seq<char>, Seq<char>),
> {
    let named = if resolved != model {
        seq![("configured_model"@, model)]
    } else {
        Seq::empty()
    };
    match opus {
        Some(opus) => named.push(("default_opus_model"@, opus)),
        None => named,
    }
}

pub open spec fn resolved_model(registered: RegisteredModel, model: Seq<char>) -> Seq<char> {
    match registered.resolved_upstream_model_id {
        Some(resolved) => resolved@,
        None => model,
    }
}

/// The second part of a scan.
pub fn finish_claude_scan(pending: PendingClaudeScan, answer: RegistryAnswer) -> (r:
    FilesystemAgentDiscoveryV1)
    ensures
        r.managed_launch == pending.managed_launch,
        r.permission_hardening is None,
        match answer {
            RegistryAnswer::Found(registered) => {
                &&& r.outcome == pending.outcome
                &&& r.configuration_issue is None
                &&& r.discovered_credential == pending.credential
                &&& r.claude_configuration matches Some(found) && {
                    &&& found.connection_option_id == registered.connection_option_id
                    &&& found.endpoint_profile_id == registered.endpoint_profile_id
                    &&& found.endpoint_profile_revision == registered.endpoint_profile_revision
                    &&& found.model_configuration_id == registered.model_configuration_id
                    &&& found.base_url == registered.base_url
                    &&& found.observed_model_id@ == resolved_model(registered, pending.model@)
                    &&& pairs_view(
                        found.provider_model_alias_hints@,
                    ) == hints_of(
                        pending.model@,
                        resolved_model(registered, pending.model@),
                        maybe_text(pending.default_opus_model),
                    )
                    &&& found.configuration_revision == pending.configuration_revision
                }
            },
            _ => {
                let why = if answer is NoModel {
                    AgentReportOnlyReasonV1::UnregisteredModel
                } else {
                    AgentReportOnlyReasonV1::UnregisteredEndpoint
                };
                &&& r.claude_configuration is None
                &&& r.discovered_credential is None
                &&& r.configuration_issue == Some(why)
                &&& if pending.keeps_outcome {
                    r.outcome == pending.outcome
                } else {
                    is_report(
                        r.outcome,
                        "agent_claude_default"@,
                        AgentKindV1::ClaudeCode,
                        pending.version@,
                        why,
                    )
                }
            },
        },
{
    let reason = match answer {
        RegistryAnswer::Found(registered) => {
            let observed_model_id = match &registered.resolved_upstream_model_id {
                Some(resolved) => resolved.clone(),
                None => pending.model.clone(),
            };
            let mut hints: Vec<(String, String)> = Vec::new();
            let ghost start = pairs_view(hints@);
            assert(start =~= Seq::empty());
            if !same(observed_model_id.as_str(), pending.model.as_str()) {
                hints.push(("configured_model".to_owned(), pending.model.clone()));
            }
            let ghost named = pairs_view(hints@);
            proof {
                assert(named =~= (if observed_model_id@ != pending.model@ {
                    seq![("configured_model"@, pending.model@)]
                } else {
                    Seq::empty()
                }));
            }
            match pending.default_opus_model {
                Some(opus) => {
                    let ghost text = opus@;
                    hints.push(("default_opus_model".to_owned(), opus));
                    assert(pairs_view(hints@) =~= named.push(
                        ("default_opus_model"@, text),
                    ));
                },
                None => {},
            }
            return FilesystemAgentDiscoveryV1 {
                outcome: pending.outcome,
                configuration_issue: None,
                claude_configuration: Some(
                    RegisteredClaudeConfigurationV1 {
                        connection_option_id: registered.connection_option_id,
                        endpoint_profile_id: registered.endpoint_profile_id,
                        endpoint_profile_revision: registered.endpoint_profile_revision,
                        model_configuration_id: registered.model_configuration_id,
                        base_url: registered.base_url,
                        observed_model_id,
                        provider_model_alias_hints: hints,
                        configuration_revision: pending.configuration_revision,
                    },
                ),
                discovered_credential: pending.credential,
                permission_hardening: None,
                managed_launch: pending.managed_launch,
            };
        },
        RegistryAnswer::NoModel => AgentReportOnlyReasonV1::UnregisteredModel,
        RegistryAnswer::NoEndpoint => AgentReportOnlyReasonV1::UnregisteredEndpoint,
    };
    let outcome = if pending.keeps_outcome {
        pending.outcome
    } else {
        report_only_outcome(
            "agent_claude_default",
            AgentKindV1::ClaudeCode,
            pending.version.as_str(),
            reason,
        )
    };
    ended(outcome, Some(reason), pending.managed_launch)
}

/// The version of an executable never decides how a scan goes on, nor what its preflight says.
pub proof fn versions_do_not_decide_a_scan(
    scan: ScanView,
    path: Seq<char>,
    version: Seq<char>,
    other: Seq<char>,
)
    requires
        scan.executable == Some((version, path)),
    ensures
        (ScanView { executable: Some((other, path)), ..scan }).decision() == scan.decision(),
        (ScanView { executable: Some((other, path)), ..scan }).preflight() == scan.preflight(),
{
}

/// The first source with a reference.
pub open spec fn place_of_source(sources: Seq<ClaudeSource>, reference: Seq<char>) -> Option<int>
    decreases sources.len(),
{
    if sources.len() == 0 {
        None
    } else {
        match place_of_source(sources.drop_last(), reference) {
            Some(i) => Some(i),
            None => if source_ref_of(sources.last()) == reference {
                Some(sources.len() - 1)
            } else {
                None
            },
        }
    }
}

proof fn lemma_place_of_source(sources: Seq<ClaudeSource>, reference: Seq<char>, k: int)
    requires
        0 <= k <= sources.len(),
        place_of_source(sources.take(k), reference) is Some,
    ensures
        place_of_source(sources, reference) == place_of_source(sources.take(k), reference),
    decreases sources.len() - k,
{
    if k < sources.len() {
        assert(sources.take(k + 1).drop_last() == sources.take(k));
        lemma_place_of_source(sources, reference, k + 1);
    } else {
        assert(sources.take(k) == sources);
    }
}

/// Finds the source that a reference names.
pub fn find_source(sources: &Vec<ClaudeSource>, reference: &str) -> (r: Result<
    usize,
    AgentFilesystemScanError,
>)
    ensures
        match place_of_source(sources@, reference@) {
            Some(i) => r matches Ok(k) && k as int == i && k < sources@.len(),
            None => r matches Err(error) && error == AgentFilesystemScanError::SourceUnavailable,
        },
{
    let mut i: usize = 0;
    assert(sources@.take(0) == Seq::<ClaudeSource>::empty());
    while i < sources.len()
        invariant
            i <= sources.len(),
            place_of_source(sources@.take(i as int), reference@) is None,
        decreases sources.len() - i,
    {
        proof {
            assert(sources@.take(i + 1).drop_last() == sources@.take(i as int));
            assert(sources@.take(i + 1).last() == sources@[i as int]);
        }
        if same(sources[i].source_ref().as_str(), reference) {
            proof {
                lemma_place_of_source(sources@, reference@, i + 1);
            }
            return Ok(i);
        }
        i += 1;
    }
    assert(sources@.take(i as int) == sources@);
    Err(AgentFilesystemScanError::SourceUnavailable)
}

/// Where a described credential is to be read: the source and the variable.
pub fn locate_credential(descriptor: &DiscoveredCredentialRefV1, sources: &Vec<ClaudeSource>) -> (r:
    Result<(usize, String), AgentFilesystemScanError>)
    ensures
        if !is_descriptor(*descriptor) {
            r matches Err(error) && error == AgentFilesystemScanError::InvalidDescriptor
        } else {
            match place_of_source(sources@, descriptor.discovered_source_ref@) {
                Some(i) => r matches Ok(found) && found.0 as int == i && found.0 < sources@.len()
                    && after_prefix(descriptor.field_selector@, "env."@) == Some(found.1@),
                None => r matches Err(error) && error
                    == AgentFilesystemScanError::SourceUnavailable,
            }
        },
{
    match validate_descriptor(descriptor) {
        Ok(()) => {},
        Err(error) => {
            return Err(error);
        },
    }
    let at = match find_source(sources, descriptor.discovered_source_ref.as_str()) {
        Ok(at) => at,
        Err(error) => {
            return Err(error);
        },
    };
    proof {
        reveal_strlit("env.");
        reveal_strlit("env.ANTHROPIC_AUTH_TOKEN");
        reveal_strlit("env.ANTHROPIC_API_KEY");
        assert("env.ANTHROPIC_AUTH_TOKEN"@.take(4) =~= "env."@);
        assert("env.ANTHROPIC_API_KEY"@.take(4) =~= "env."@);
    }
    match strip_prefix(descriptor.field_selector.as_str(), "env.") {
        Some(name) => Ok((at, name)),
        None => Err(AgentFilesystemScanError::InvalidDescriptor),
    }
}

/// A credential that was read counts only where its source is still the observed one.
pub fn accept_credential(descriptor: &DiscoveredCredentialRefV1, revision: u64) -> (r: Result<
    (),
    AgentFilesystemScanError,
>)
    ensures
        if revision == descriptor.observed_revision {
            r is Ok
        } else {
            r matches Err(error) && error == AgentFilesystemScanError::SourceChanged
        },
{
    if revision != descriptor.observed_revision {
        return Err(AgentFilesystemScanError::SourceChanged);
    }
    Ok(())
}

/// Whether a credential is that of the user's own settings file.
pub fn is_claude_user_credential(layout: &AgentFilesystemLayoutV1, descriptor: &DiscoveredCredentialRefV1) -> (r:
    bool)
    ensures
        r == (is_descriptor(*descriptor) && descriptor.discovered_source_ref@ == settings_ref(
            layout.claude_user_settings@,
            ConfigLayerV1::User,
        )),
{
    match validate_descriptor(descriptor) {
        Ok(()) => same(
            descriptor.discovered_source_ref.as_str(),
            source_ref(layout.claude_user_settings.as_str(), ConfigLayerV1::User).as_str(),
        ),
        Err(_) => false,
    }
}

/// Why the installation behind an applied change cannot be told.
pub open spec fn applied_fault(
    is_applied: bool,
    located: bool,
    values: Seq<ObservedView>,
    profiles: Seq<AgentProfileFacts>,
) -> Option<AgentFilesystemScanError> {
    if !is_applied {
        Some(AgentFilesystemScanError::SourceChanged)
    } else if !located {
        Some(AgentFilesystemScanError::SourceUnavailable)
    } else if is_ambiguous(values, profiles) {
        Some(AgentFilesystemScanError::SourceChanged)
    } else if report_reason_on(
        AGENT_SCAN_OBSERVATION_SCHEMA_V1@,
        "agent_claude_default"@,
        told_config(values, profiles),
        profiles,
    ) is Some {
        Some(AgentFilesystemScanError::InvalidConfig)
    } else {
        None
    }
}

/// The installation behind a change of the user's file that is applied. The executable is located,
/// not probed: `located` is nothing, a path, or a path that is no text.
pub fn claude_installation_for_applied_user_change(
    is_applied: bool,
    located: Result<Option<Option<String>>, ProbeFailure>,
    files: &Vec<String>,
    observations: &Vec<ObservedClaudeSettings>,
    profiles: &Vec<AgentProfileFacts>,
) -> (r: Result<(AgentDiscoveryOutcomeV1, String), AgentFilesystemScanError>)
    ensures
        ({
            let values = resolved_on(
                observed_view(observations@),
                views_of(files@),
                files@.len() as int,
            );
            match applied_fault(
                is_applied,
                located matches Ok(Some(Some(_))),
                values,
                profiles@,
            ) {
                Some(fault) => r matches Err(error) && error == fault,
                None => r matches Ok(found) && found.0 is Supported && is_main_outcome(
                    found.0,
                    "not-probed"@,
                    values,
                    false,
                    profiles@,
                ) && located == Ok::<Option<Option<String>>, ProbeFailure>(Some(Some(found.1))),
            }
        }),
{
    if !is_applied {
        return Err(AgentFilesystemScanError::SourceChanged);
    }
    let path = match located {
        Ok(Some(Some(path))) => path,
        _ => {
            return Err(AgentFilesystemScanError::SourceUnavailable);
        },
    };
    let main = resolve_project_local_fields(files, observations);
    let (outcome, ambiguous) = main_claude_observation("not-probed", &main, profiles);
    if ambiguous {
        return Err(AgentFilesystemScanError::SourceChanged);
    }
    match &outcome {
        AgentDiscoveryOutcomeV1::Supported { .. } => {},
        AgentDiscoveryOutcomeV1::ReportOnly { .. } => {
            return Err(AgentFilesystemScanError::InvalidConfig);
        },
    }
    Ok((outcome, path))
}

/// Where a model can be used.
#[derive(Clone, Copy, Debug, PartialEq, Eq, Structural)]
pub enum AgentModelSurfaceV2 {
    CodexCli,
    CodexDesktop,
    ClaudeCli,
}

/// The engine that a layout has for a surface of Codex.
pub fn codex_engine_target(layout: &AgentFilesystemLayoutV1, surface: AgentModelSurfaceV2) -> (r:
    Option<String>)
    ensures
        maybe_text(r) == (match surface {
            AgentModelSurfaceV2::CodexCli => Some(layout.codex_executable@),
            AgentModelSurfaceV2::CodexDesktop => maybe_text(layout.codex_desktop_executable),
            AgentModelSurfaceV2::ClaudeCli => None,
        }),
{
    match surface {
        AgentModelSurfaceV2::CodexCli => Some(layout.codex_executable.clone()),
        AgentModelSurfaceV2::CodexDesktop => copied_option(&layout.codex_desktop_executable),
        AgentModelSurfaceV2::ClaudeCli => None,
    }
}

pub open spec fn only_if(surface: AgentModelSurfaceV2, there: bool) -> Seq<AgentModelSurfaceV2> {
    if there {
        seq![surface]
    } else {
        Seq::empty()
    }
}

/// The surfaces of an agent that can be started, given which executables were located.
pub open spec fn surfaces_of(
    agent_id: Seq<char>,
    codex_cli: bool,
    codex_desktop: bool,
    claude_cli: bool,
) -> Seq<AgentModelSurfaceV2> {
    if agent_id == "agent_codex_default"@ {
        only_if(AgentModelSurfaceV2::CodexCli, codex_cli) + only_if(
            AgentModelSurfaceV2::CodexDesktop,
            codex_desktop,
        )
    } else if agent_id == "agent_claude_default"@ {
        only_if(AgentModelSurfaceV2::ClaudeCli, claude_cli)
    } else {
        Seq::empty()
    }
}

pub fn available_model_surfaces(
    agent_id: &str,
    codex_cli: bool,
    codex_desktop: bool,
    claude_cli: bool,
) -> (r: Vec<AgentModelSurfaceV2>)
    ensures
        r@ == surfaces_of(agent_id@, codex_cli, codex_desktop, claude_cli),
{
    let mut surfaces: Vec<AgentModelSurfaceV2> = Vec::new();
    if same(agent_id, "agent_codex_default") {
        if codex_cli {
            surfaces.push(AgentModelSurfaceV2::CodexCli);
        }
        if codex_desktop {
            surfaces.push(AgentModelSurfaceV2::CodexDesktop);
        }
    } else if same(agent_id, "agent_claude_default") && claude_cli {
        surfaces.push(AgentModelSurfaceV2::ClaudeCli);
    }
    assert(surfaces@ =~= surfaces_of(agent_id@, codex_cli, codex_desktop, claude_cli));
    surfaces
}

} // verus!
