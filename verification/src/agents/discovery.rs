//! What a scan has observed of an agent, and whether the agent can be configured.

use vstd::prelude::*;
use crate::digest::{is_digest, is_digest_text, CanonicalDigest};
use crate::json::{
    array_view, canonical_digest, canonical_digest_of, contains_nul, has_nul, put_member,
    same_json, Json, JsonView,
};
use crate::text::{
    alphanumeric, before_first, byte_len, bytes_in, chars_of, in_order, insert_in_order,
    is_alphanumeric, same, take_before, views_of,
};

verus! {

pub const AGENT_SCAN_OBSERVATION_SCHEMA_V1: &'static str = "hiroute.agent-scan-observation/v1";

/// Where a setting comes from.
#[derive(Clone, Copy, Debug, PartialEq, Eq, Structural)]
pub enum ConfigLayerV1 {
    Process,
    Launch,
    Project,
    User,
    Managed,
}

#[derive(Clone, Copy, Debug, PartialEq, Eq, Structural)]
pub enum AgentKindV1 {
    Codex,
    ClaudeCode,
}

impl ConfigLayerV1 {
    /// How near a layer is to the running process; a lower one counts first.
    pub open spec fn rank(self) -> int {
        match self {
            ConfigLayerV1::Process => 0,
            ConfigLayerV1::Launch => 1,
            ConfigLayerV1::Project => 2,
            ConfigLayerV1::User => 3,
            ConfigLayerV1::Managed => 4,
        }
    }

    /// The rank of a layer for an agent. For ClaudeCode the managed settings count before all
    /// others.
    pub open spec fn rank_for(self, kind: AgentKindV1) -> int {
        match kind {
            AgentKindV1::Codex => self.rank(),
            AgentKindV1::ClaudeCode => if self == ConfigLayerV1::Managed {
                -1
            } else {
                self.rank()
            },
        }
    }

    pub fn precedence(self) -> (r: u8)
        ensures
            r == self.rank(),
    {
        match self {
            ConfigLayerV1::Process => 0,
            ConfigLayerV1::Launch => 1,
            ConfigLayerV1::Project => 2,
            ConfigLayerV1::User => 3,
            ConfigLayerV1::Managed => 4,
        }
    }

    pub fn precedence_for(self, kind: AgentKindV1) -> (r: u8)
        ensures
            r == self.rank_for(kind) + 1,
    {
        match kind {
            AgentKindV1::Codex => self.precedence() + 1,
            AgentKindV1::ClaudeCode => if self == ConfigLayerV1::Managed {
                0
            } else {
                self.precedence() + 1
            },
        }
    }

    /// The name that identities are made with.
    pub open spec fn label(self) -> Seq<char> {
        match self {
            ConfigLayerV1::Process => "Process"@,
            ConfigLayerV1::Launch => "Launch"@,
            ConfigLayerV1::Project => "Project"@,
            ConfigLayerV1::User => "User"@,
            ConfigLayerV1::Managed => "Managed"@,
        }
    }

    pub fn label_text(self) -> (r: &'static str)
        ensures
            r@ == self.label(),
    {
        match self {
            ConfigLayerV1::Process => "Process",
            ConfigLayerV1::Launch => "Launch",
            ConfigLayerV1::Project => "Project",
            ConfigLayerV1::User => "User",
            ConfigLayerV1::Managed => "Managed",
        }
    }

    /// The name in documents.
    pub open spec fn wire(self) -> Seq<char> {
        match self {
            ConfigLayerV1::Process => "process"@,
            ConfigLayerV1::Launch => "launch"@,
            ConfigLayerV1::Project => "project"@,
            ConfigLayerV1::User => "user"@,
            ConfigLayerV1::Managed => "managed"@,
        }
    }

    pub fn wire_text(self) -> (r: &'static str)
        ensures
            r@ == self.wire(),
    {
        match self {
            ConfigLayerV1::Process => "process",
            ConfigLayerV1::Launch => "launch",
            ConfigLayerV1::Project => "project",
            ConfigLayerV1::User => "user",
            ConfigLayerV1::Managed => "managed",
        }
    }
}

impl AgentKindV1 {
    /// The name of the agent's command and of its directories: the first word of its name.
    pub open spec fn command(self) -> Seq<char> {
        before_first(self.wire(), '_')
    }

    pub fn command_text(self) -> (r: String)
        ensures
            r@ == self.command(),
    {
        take_before(self.wire_text(), '_')
    }

    pub open spec fn wire(self) -> Seq<char> {
        match self {
            AgentKindV1::Codex => "codex"@,
            AgentKindV1::ClaudeCode => "claude_code"@,
        }
    }

    pub fn wire_text(self) -> (r: &'static str)
        ensures
            r@ == self.wire(),
    {
        match self {
            AgentKindV1::Codex => "codex",
            AgentKindV1::ClaudeCode => "claude_code",
        }
    }
}

/// A setting as it was found in one layer.
#[derive(Debug)]
pub struct ConfigObservationV1 {
    pub path: String,
    pub layer: ConfigLayerV1,
    pub value: Json,
    pub source_digest: String,
}

pub struct ObservationView {
    pub path: Seq<char>,
    pub layer: ConfigLayerV1,
    pub value: JsonView,
    pub source_digest: Seq<char>,
}

impl View for ConfigObservationV1 {
    type V = ObservationView;

    open spec fn view(&self) -> ObservationView {
        ObservationView {
            path: self.path@,
            layer: self.layer,
            value: self.value@,
            source_digest: self.source_digest@,
        }
    }
}

pub open spec fn observations_view(config: Seq<ConfigObservationV1>) -> Seq<ObservationView> {
    config.map_values(|observation: ConfigObservationV1| observation@)
}

#[derive(Debug)]
pub struct AgentScanObservationV1 {
    pub schema: String,
    pub agent_id: String,
    pub kind: AgentKindV1,
    pub version: String,
    pub config: Vec<ConfigObservationV1>,
}

#[derive(Clone, Copy, Debug, PartialEq, Eq, Structural)]
pub enum AgentReportOnlyReasonV1 {
    NotFoundInScope,
    ExecutableNotRunnable,
    ExecutableProbeTimedOut,
    ExecutableProbeUnavailable,
    UnknownObservationSchema,
    UnknownProfile,
    AmbiguousProfile,
    ConflictingEffectiveConfig,
    InvalidObservation,
    SymlinkConfig,
    WrongOwner,
    UnsafeConfigPermissions,
    PermissionHardeningRequired,
    ConfigUnavailable,
    UnregisteredEndpoint,
    UnregisteredModel,
}

/// What discovery reads of a built-in profile.
#[derive(Debug)]
pub struct AgentProfileFacts {
    pub is_valid: bool,
    pub owned_paths: Vec<String>,
}

/// A capability of an installed agent. Those that no check of this kind proves are told apart by a
/// number.
#[derive(Clone, Copy, Debug, PartialEq, Eq, Structural)]
pub enum AgentCapability {
    EffectiveConfiguration,
    IngressAuthentication,
    SkillLoading,
    TrustedCliExecution,
    Other(u32),
}

#[derive(Clone, Copy, Debug, PartialEq, Eq, Structural)]
pub enum CapabilityState {
    Proven,
    Unknown,
    Unavailable,
}

/// Why a capability is not proven. Reasons that are given elsewhere are told apart by a number.
#[derive(Clone, Copy, Debug, PartialEq, Eq, Structural)]
pub enum CapabilityReason {
    HigherPrecedenceConflict,
    Other(u32),
}

/// What is known of a capability, and from what.
#[derive(Debug)]
pub struct CapabilityEvidence {
    pub capability: AgentCapability,
    pub state: CapabilityState,
    pub reason: Option<CapabilityReason>,
    pub adapter_contract: String,
    pub observed_at_unix_ms: u64,
    pub dependency_digest: CanonicalDigest,
}

pub struct EvidenceView {
    pub capability: AgentCapability,
    pub state: CapabilityState,
    pub reason: Option<CapabilityReason>,
    pub adapter_contract: Seq<char>,
    pub observed_at_unix_ms: u64,
    pub dependency_digest: Seq<char>,
}

impl View for CapabilityEvidence {
    type V = EvidenceView;

    open spec fn view(&self) -> EvidenceView {
        EvidenceView {
            capability: self.capability,
            state: self.state,
            reason: self.reason,
            adapter_contract: self.adapter_contract@,
            observed_at_unix_ms: self.observed_at_unix_ms,
            dependency_digest: self.dependency_digest@,
        }
    }
}

pub open spec fn evidence_view(list: Seq<CapabilityEvidence>) -> Seq<EvidenceView> {
    list.map_values(|item: CapabilityEvidence| item@)
}

/// What discovery makes of an observation.
#[derive(Debug)]
pub enum AgentDiscoveryOutcomeV1 {
    /// The one profile of the agent's kind applies. The effective settings are in the order of
    /// their paths.
    Supported {
        agent_id: String,
        kind: AgentKindV1,
        version: String,
        effective_config: Vec<ConfigObservationV1>,
        observation_digest: CanonicalDigest,
        capability_evidence: Vec<CapabilityEvidence>,
    },
    ReportOnly {
        agent_id: String,
        kind: AgentKindV1,
        version: String,
        reason: AgentReportOnlyReasonV1,
        observation_digest: CanonicalDigest,
    },
}

pub open spec fn observation_json(observation: ObservationView) -> JsonView {
    JsonView::Object(
        map![
            "path"@ => JsonView::Str(observation.path),
            "layer"@ => JsonView::Str(observation.layer.wire()),
            "value"@ => observation.value,
            "source_digest"@ => JsonView::Str(observation.source_digest),
        ],
    )
}

/// The identity of an observation. The version of the executable does not enter it.
pub open spec fn observation_identity(observation: AgentScanObservationV1) -> Seq<char> {
    identity_on(
        observation.schema@,
        observation.agent_id@,
        observation.kind,
        observations_view(observation.config@),
    )
}

pub open spec fn config_json(config: Seq<ObservationView>) -> JsonView {
    JsonView::Array(config.map_values(|item: ObservationView| observation_json(item)))
}

pub open spec fn identity_on(
    schema: Seq<char>,
    agent_id: Seq<char>,
    kind: AgentKindV1,
    config: Seq<ObservationView>,
) -> Seq<char> {
    canonical_digest_of(
        JsonView::Array(
            seq![
                JsonView::Str(schema),
                JsonView::Str(agent_id),
                JsonView::Str(kind.wire()),
                config_json(config),
            ],
        ),
    )
}

/// Whether a text is an agent's name: letters, digits, dots, underscores, dashes and single
/// slashes, and no two dots in a row.
pub open spec fn is_agent_id(value: Seq<char>) -> bool {
    &&& 0 < value.len()
    &&& byte_len(value) <= 256
    &&& forall|i: int| 0 <= i < value.len() ==> is_agent_id_char(#[trigger] value[i])
    &&& forall|i: int|
        0 <= i < value.len() - 1 ==> !((#[trigger] value[i]) == '.' && value[i + 1] == '.') && !(
        value[i] == '/' && value[i + 1] == '/')
}

pub open spec fn is_agent_id_char(c: char) -> bool {
    is_alphanumeric(c) || c == '.' || c == '_' || c == '-' || c == '/'
}

fn valid_agent_id(value: &str) -> (r: bool)
    ensures
        r == is_agent_id(value@),
{
    let chars = chars_of(value);
    if chars.len() == 0 || bytes_in(value) > 256 {
        return false;
    }
    let mut i: usize = 0;
    while i < chars.len()
        invariant
            i <= chars.len(),
            chars@ == value@,
            forall|j: int| 0 <= j < i ==> is_agent_id_char(#[trigger] value@[j]),
            forall|j: int|
                0 <= j < i - 1 ==> !((#[trigger] value@[j]) == '.' && value@[j + 1] == '.') && !(
                value@[j] == '/' && value@[j + 1] == '/'),
        decreases chars.len() - i,
    {
        let c = chars[i];
        if !alphanumeric(c) && c != '.' && c != '_' && c != '-' && c != '/' {
            assert(!is_agent_id_char(value@[i as int]));
            return false;
        }
        if i > 0 && ((c == '.' && chars[i - 1] == '.') || (c == '/' && chars[i - 1] == '/')) {
            assert(value@[i - 1] == value@[i as int]);
            return false;
        }
        i += 1;
    }
    true
}

/// Whether a setting of two observations is the same one in the same layer.
pub open spec fn same_place(a: ObservationView, b: ObservationView) -> bool {
    a.path == b.path && a.layer == b.layer
}

/// What is wrong with an observation among those before it. Settings that the profile does not
/// own need only name their source.
pub open spec fn fault_at(
    config: Seq<ObservationView>,
    i: int,
    owned: Seq<Seq<char>>,
) -> Option<AgentReportOnlyReasonV1> {
    let candidate = config[i];
    if !is_digest_text(candidate.source_digest) {
        Some(AgentReportOnlyReasonV1::InvalidObservation)
    } else if !owned.contains(candidate.path) {
        None
    } else if has_nul(candidate.value) {
        Some(AgentReportOnlyReasonV1::InvalidObservation)
    } else if exists|j: int|
        0 <= j < i && same_place(#[trigger] config[j], candidate) && config[j].value
            != candidate.value {
        Some(AgentReportOnlyReasonV1::ConflictingEffectiveConfig)
    } else {
        None
    }
}

/// The first fault of a list of observations.
pub open spec fn first_fault(config: Seq<ObservationView>, n: int, owned: Seq<Seq<char>>) -> Option<
    AgentReportOnlyReasonV1,
>
    decreases n,
{
    if n <= 0 {
        None
    } else {
        match first_fault(config, n - 1, owned) {
            Some(reason) => Some(reason),
            None => fault_at(config, n - 1, owned),
        }
    }
}

/// The place of the observation of a path that counts: the one of the lowest rank, of equal ones
/// the first.
pub open spec fn effective_at(
    config: Seq<ObservationView>,
    path: Seq<char>,
    kind: AgentKindV1,
) -> Option<int>
    decreases config.len(),
{
    if config.len() == 0 {
        None
    } else {
        let before = effective_at(config.drop_last(), path, kind);
        let last = config.last();
        if last.path == path && (before is None || last.layer.rank_for(kind)
            < config[before->0].layer.rank_for(kind)) {
            Some(config.len() - 1)
        } else {
            before
        }
    }
}

/// The effective settings of the owned paths, in the order of the paths.
pub open spec fn effective_config_of(
    config: Seq<ObservationView>,
    owned: Seq<Seq<char>>,
    kind: AgentKindV1,
) -> Seq<ObservationView> {
    in_order(owned).filter(|path: Seq<char>| effective_at(config, path, kind) is Some).map_values(
        |path: Seq<char>| config[effective_at(config, path, kind)->0],
    )
}

/// Why an observation is only reported.
pub open spec fn report_reason_of(
    observation: AgentScanObservationV1,
    profiles: Seq<AgentProfileFacts>,
) -> Option<AgentReportOnlyReasonV1> {
    report_reason_on(
        observation.schema@,
        observation.agent_id@,
        observations_view(observation.config@),
        profiles,
    )
}

pub open spec fn report_reason_on(
    schema: Seq<char>,
    agent_id: Seq<char>,
    config: Seq<ObservationView>,
    profiles: Seq<AgentProfileFacts>,
) -> Option<AgentReportOnlyReasonV1> {
    if schema != AGENT_SCAN_OBSERVATION_SCHEMA_V1@ {
        Some(AgentReportOnlyReasonV1::UnknownObservationSchema)
    } else if !is_agent_id(agent_id) {
        Some(AgentReportOnlyReasonV1::InvalidObservation)
    } else if profiles.len() == 0 {
        Some(AgentReportOnlyReasonV1::UnknownProfile)
    } else if profiles.len() > 1 || !profiles[0].is_valid {
        Some(AgentReportOnlyReasonV1::AmbiguousProfile)
    } else {
        first_fault(config, config.len() as int, views_of(profiles[0].owned_paths@))
    }
}

fn observation_to_json(observation: &ConfigObservationV1) -> (r: Json)
    ensures
        r@ == observation_json(observation@),
{
    let mut members: Vec<(String, Json)> = Vec::new();
    put_member(&mut members, "path", Json::Str(observation.path.clone()));
    put_member(&mut members, "layer", Json::Str(observation.layer.wire_text().to_owned()));
    put_member(&mut members, "value", observation.value.copied());
    put_member(&mut members, "source_digest", Json::Str(observation.source_digest.clone()));
    Json::Object(members)
}

/// Settings as a document.
pub(crate) fn config_to_json(config: &Vec<ConfigObservationV1>) -> (r: Json)
    ensures
        r@ == config_json(observations_view(config@)),
{
    let ghost all = observations_view(config@);
    let ghost project = |item: ObservationView| observation_json(item);
    let mut items: Vec<Json> = Vec::new();
    let mut i: usize = 0;
    assert(array_view(items@) =~= all.take(0).map_values(project));
    while i < config.len()
        invariant
            i <= config.len(),
            all == observations_view(config@),
            project == (|item: ObservationView| observation_json(item)),
            array_view(items@) == all.take(i as int).map_values(project),
        decreases config.len() - i,
    {
        let ghost before = items@;
        items.push(observation_to_json(&config[i]));
        proof {
            assert(items@.drop_last() == before);
            assert(all.take(i + 1).map_values(project) =~= all.take(i as int).map_values(
                project,
            ).push(observation_json(all[i as int])));
        }
        i += 1;
    }
    assert(all.take(i as int) == all);
    Json::Array(items)
}

fn identity_of(observation: &AgentScanObservationV1) -> (r: CanonicalDigest)
    ensures
        r@ == observation_identity(*observation),
{
    let mut parts: Vec<Json> = Vec::new();
    parts.push(Json::Str(observation.schema.clone()));
    parts.push(Json::Str(observation.agent_id.clone()));
    parts.push(Json::Str(observation.kind.wire_text().to_owned()));
    parts.push(config_to_json(&observation.config));
    proof {
        crate::json::lemma_array_view(parts@);
        assert(array_view(parts@) =~= seq![
            JsonView::Str(observation.schema@),
            JsonView::Str(observation.agent_id@),
            JsonView::Str(observation.kind.wire()),
            config_json(observations_view(observation.config@)),
        ]);
    }
    canonical_digest(&Json::Array(parts))
}

fn copied_observation(observation: &ConfigObservationV1) -> (r: ConfigObservationV1)
    ensures
        r@ == observation@,
{
    ConfigObservationV1 {
        path: observation.path.clone(),
        layer: observation.layer,
        value: observation.value.copied(),
        source_digest: observation.source_digest.clone(),
    }
}

fn listed(list: &Vec<String>, text: &str) -> (r: bool)
    ensures
        r == views_of(list@).contains(text@),
{
    let mut i: usize = 0;
    while i < list.len()
        invariant
            i <= list.len(),
            forall|j: int| 0 <= j < i ==> #[trigger] views_of(list@)[j] != text@,
        decreases list.len() - i,
    {
        assert(views_of(list@)[i as int] == list@[i as int]@);
        if same(list[i].as_str(), text) {
            return true;
        }
        i += 1;
    }
    false
}

fn find_fault(config: &Vec<ConfigObservationV1>, owned: &Vec<String>) -> (r: Option<
    AgentReportOnlyReasonV1,
>)
    ensures
        r == first_fault(observations_view(config@), config@.len() as int, views_of(owned@)),
{
    let ghost all = observations_view(config@);
    let ghost names = views_of(owned@);
    let mut i: usize = 0;
    while i < config.len()
        invariant
            i <= config.len(),
            all == observations_view(config@),
            names == views_of(owned@),
            first_fault(all, i as int, names) is None,
        decreases config.len() - i,
    {
        let candidate = &config[i];
        assert(all[i as int] == candidate@);
        let fault = if !is_digest(candidate.source_digest.as_str()) {
            Some(AgentReportOnlyReasonV1::InvalidObservation)
        } else if !listed(owned, candidate.path.as_str()) {
            None
        } else if contains_nul(&candidate.value) {
            Some(AgentReportOnlyReasonV1::InvalidObservation)
        } else {
            let mut conflict = false;
            let mut k: usize = 0;
            while k < i
                invariant
                    k <= i < config.len(),
                    all == observations_view(config@),
                    all[i as int] == candidate@,
                    conflict == exists|j: int|
                        0 <= j < k && same_place(#[trigger] all[j], all[i as int]) && all[j].value
                            != all[i as int].value,
                decreases i - k,
            {
                let earlier = &config[k];
                assert(all[k as int] == earlier@);
                if earlier.layer == candidate.layer && same(
                    earlier.path.as_str(),
                    candidate.path.as_str(),
                ) && !same_json(&earlier.value, &candidate.value) {
                    assert(same_place(all[k as int], all[i as int]));
                    conflict = true;
                }
                k += 1;
            }
            if conflict {
                Some(AgentReportOnlyReasonV1::ConflictingEffectiveConfig)
            } else {
                None
            }
        };
        assert(fault == fault_at(all, i as int, names));
        if fault.is_some() {
            proof {
                lemma_fault_stays(all, i + 1, all.len() as int, names);
            }
            return fault;
        }
        i += 1;
    }
    None
}

proof fn lemma_fault_stays(config: Seq<ObservationView>, k: int, n: int, owned: Seq<Seq<char>>)
    requires
        0 <= k <= n,
        first_fault(config, k, owned) is Some,
    ensures
        first_fault(config, n, owned) == first_fault(config, k, owned),
    decreases n - k,
{
    if k < n {
        lemma_fault_stays(config, k, n - 1, owned);
    }
}

/// The observation of a path that counts.
pub fn select_effective(config: &Vec<ConfigObservationV1>, path: &str, kind: AgentKindV1) -> (r:
    Option<usize>)
    ensures
        match r {
            Some(i) => i < config@.len() && effective_at(observations_view(config@), path@, kind)
                == Some(i as int),
            None => effective_at(observations_view(config@), path@, kind) is None,
        },
{
    let ghost all = observations_view(config@);
    let mut best: Option<usize> = None;
    let mut i: usize = 0;
    assert(all.take(0) == Seq::<ObservationView>::empty());
    while i < config.len()
        invariant
            i <= config.len(),
            all == observations_view(config@),
            match best {
                Some(b) => b < i && effective_at(all.take(i as int), path@, kind) == Some(b as int),
                None => effective_at(all.take(i as int), path@, kind) is None,
            },
        decreases config.len() - i,
    {
        let item = &config[i];
        proof {
            assert(all[i as int] == item@);
            assert(all.take(i + 1).drop_last() == all.take(i as int));
            assert(all.take(i + 1).last() == item@);
        }
        if same(item.path.as_str(), path) {
            let better = match best {
                Some(b) => {
                    assert(all[b as int] == config@[b as int]@);
                    item.layer.precedence_for(kind) < config[b].layer.precedence_for(kind)
                },
                None => true,
            };
            if better {
                best = Some(i);
            }
        }
        i += 1;
    }
    assert(all.take(i as int) == all);
    best
}

fn effective_settings(
    config: &Vec<ConfigObservationV1>,
    owned: &Vec<String>,
    kind: AgentKindV1,
) -> (r: Vec<ConfigObservationV1>)
    ensures
        observations_view(r@) == effective_config_of(
            observations_view(config@),
            views_of(owned@),
            kind,
        ),
{
    let ghost all = observations_view(config@);
    let ghost names = views_of(owned@);
    let mut paths: Vec<String> = Vec::new();
    let mut i: usize = 0;
    proof {
        assert(names.take(0) == Seq::<Seq<char>>::empty());
        assert(views_of(paths@) =~= Seq::<Seq<char>>::empty());
    }
    while i < owned.len()
        invariant
            i <= owned.len(),
            names == views_of(owned@),
            views_of(paths@) == in_order(names.take(i as int)),
        decreases owned.len() - i,
    {
        proof {
            assert(names.take(i + 1).drop_last() == names.take(i as int));
            assert(names.take(i + 1).last() == owned@[i as int]@);
        }
        insert_in_order(&mut paths, owned[i].as_str());
        i += 1;
    }
    assert(names.take(i as int) == names);
    let ghost list = in_order(names);
    let ghost keep = |path: Seq<char>| effective_at(all, path, kind) is Some;
    let ghost pick = |path: Seq<char>| all[effective_at(all, path, kind)->0];
    let mut out: Vec<ConfigObservationV1> = Vec::new();
    let mut k: usize = 0;
    proof {
        reveal(Seq::filter);
        assert(list.take(0).filter(keep).map_values(pick) =~= Seq::<ObservationView>::empty());
        assert(observations_view(out@) =~= Seq::<ObservationView>::empty());
    }
    while k < paths.len()
        invariant
            k <= paths.len(),
            all == observations_view(config@),
            list == views_of(paths@),
            keep == (|path: Seq<char>| effective_at(all, path, kind) is Some),
            pick == (|path: Seq<char>| all[effective_at(all, path, kind)->0]),
            observations_view(out@) == list.take(k as int).filter(keep).map_values(pick),
        decreases paths.len() - k,
    {
        let ghost before = observations_view(out@);
        let ghost so_far = list.take(k as int).filter(keep);
        proof {
            reveal(Seq::filter);
            assert(list.take(k + 1).drop_last() == list.take(k as int));
            assert(list.take(k + 1).last() == paths@[k as int]@);
        }
        match select_effective(config, paths[k].as_str(), kind) {
            Some(at) => {
                proof {
                    assert(keep(list[k as int]));
                    assert(all[at as int] == config@[at as int]@);
                    assert(so_far.push(list[k as int]).map_values(pick) =~= so_far.map_values(
                        pick,
                    ).push(all[at as int]));
                }
                out.push(copied_observation(&config[at]));
                assert(observations_view(out@) =~= before.push(all[at as int]));
            },
            None => {
                assert(!keep(list[k as int]));
            },
        }
        k += 1;
    }
    assert(list.take(k as int) == list);
    out
}

/// Resolves an observation against the built-in profiles of its kind.
pub fn resolve_agent_observation(
    observation: AgentScanObservationV1,
    profiles: &Vec<AgentProfileFacts>,
) -> (r: AgentDiscoveryOutcomeV1)
    ensures
        match report_reason_of(observation, profiles@) {
            Some(why) => r matches AgentDiscoveryOutcomeV1::ReportOnly {
                agent_id,
                kind,
                version,
                reason,
                observation_digest,
            } && agent_id@ == observation.agent_id@ && kind == observation.kind && version@
                == observation.version@ && reason == why && observation_digest@
                == observation_identity(observation),
            None => r matches AgentDiscoveryOutcomeV1::Supported {
                agent_id,
                kind,
                version,
                effective_config,
                observation_digest,
                capability_evidence,
            } && agent_id@ == observation.agent_id@ && kind == observation.kind && version@
                == observation.version@ && observations_view(effective_config@)
                == effective_config_of(
                observations_view(observation.config@),
                views_of(profiles@[0].owned_paths@),
                observation.kind,
            ) && observation_digest@ == observation_identity(observation)
                && capability_evidence@.len() == 0,
        },
{
    let observation_digest = identity_of(&observation);
    let reason = if !same(observation.schema.as_str(), AGENT_SCAN_OBSERVATION_SCHEMA_V1) {
        Some(AgentReportOnlyReasonV1::UnknownObservationSchema)
    } else if !valid_agent_id(observation.agent_id.as_str()) {
        Some(AgentReportOnlyReasonV1::InvalidObservation)
    } else if profiles.len() == 0 {
        Some(AgentReportOnlyReasonV1::UnknownProfile)
    } else if profiles.len() > 1 || !profiles[0].is_valid {
        Some(AgentReportOnlyReasonV1::AmbiguousProfile)
    } else {
        find_fault(&observation.config, &profiles[0].owned_paths)
    };
    match reason {
        Some(reason) => AgentDiscoveryOutcomeV1::ReportOnly {
            agent_id: observation.agent_id,
            kind: observation.kind,
            version: observation.version,
            reason,
            observation_digest,
        },
        None => {
            let effective_config = effective_settings(
                &observation.config,
                &profiles[0].owned_paths,
                observation.kind,
            );
            AgentDiscoveryOutcomeV1::Supported {
                agent_id: observation.agent_id,
                kind: observation.kind,
                version: observation.version,
                effective_config,
                observation_digest,
                capability_evidence: Vec::new(),
            }
        },
    }
}

/// The observation that counts is one of its path, none of the path has a lower rank, and none
/// before it an equal one.
pub proof fn effective_settings_have_the_lowest_rank(
    config: Seq<ObservationView>,
    path: Seq<char>,
    kind: AgentKindV1,
    other: int,
)
    requires
        0 <= other < config.len(),
        config[other].path == path,
    ensures
        effective_at(config, path, kind) matches Some(i) && 0 <= i < config.len() && config[i].path
            == path && config[i].layer.rank_for(kind) <= config[other].layer.rank_for(kind) && (
        other < i ==> config[i].layer.rank_for(kind) < config[other].layer.rank_for(kind)),
    decreases config.len(),
{
    let init = config.drop_last();
    lemma_effective_in_range(init, path, kind);
    if other < init.len() {
        assert(init[other] == config[other]);
        effective_settings_have_the_lowest_rank(init, path, kind, other);
    }
    if let Some(before) = effective_at(init, path, kind) {
        assert(init[before] == config[before]);
    }
}

proof fn lemma_effective_in_range(config: Seq<ObservationView>, path: Seq<char>, kind: AgentKindV1)
    ensures
        effective_at(config, path, kind) matches Some(i) ==> 0 <= i < config.len()
            && config[i].path == path,
    decreases config.len(),
{
    if config.len() > 0 {
        let init = config.drop_last();
        lemma_effective_in_range(init, path, kind);
        if let Some(before) = effective_at(init, path, kind) {
            assert(init[before] == config[before]);
        }
    }
}

/// The version of the executable is diagnostic: observations that differ in it alone have one
/// identity, one outcome and the same effective settings.
pub proof fn versions_do_not_decide(
    a: AgentScanObservationV1,
    b: AgentScanObservationV1,
    profiles: Seq<AgentProfileFacts>,
)
    requires
        a.schema == b.schema,
        a.agent_id == b.agent_id,
        a.kind == b.kind,
        a.config == b.config,
    ensures
        observation_identity(a) == observation_identity(b),
        report_reason_of(a, profiles) == report_reason_of(b, profiles),
{
}

} // verus!
