//! The managed launch of ClaudeCode: which settings stand in its way, and the environment, the
//! arguments and the private settings that it is started with.

use vstd::prelude::*;
use crate::agents::claude_config::{copied_members, shell_quote, shell_quoted, Members};
use crate::agents::claude_observation::{observed_view, present};
use crate::agents::claude_settings::{
    copied_texts, maybe_text, ObservedClaudeSettings, ObservedView, SettingsView,
};
use crate::agents::discovery::ConfigLayerV1;
use crate::agents::executable::{check_runnable, runnable_fault};
use crate::json::{
    array_view, compact_json, find_member, lemma_array_view, object_view, put_member, remove_member,
    to_bytes, Json, JsonView,
};
use crate::text::{
    decimal, decimal_text, in_order, insert_in_order, join_texts, joined_with, same, views_of,
};

verus! {

pub const MANAGED_LAUNCH_ENV_SANITIZED_V1: &'static str = "MANAGED_LAUNCH_ENV_SANITIZED";

pub const AGENT_AUTH_PRECEDENCE_CONFLICT_V1: &'static str = "AGENT_AUTH_PRECEDENCE_CONFLICT";

/// A setting that decides where requests go or with which credential.
#[derive(Clone, Copy, Debug, PartialEq, Eq, Structural)]
pub enum AgentAuthRoutingFieldV1 {
    AnthropicApiKey,
    AnthropicAuthToken,
    AnthropicBaseUrl,
    AnthropicCustomHeaders,
    AnthropicModel,
    ApiKeyHelper,
    Bedrock,
    Foundry,
    Vertex,
}

impl AgentAuthRoutingFieldV1 {
    /// The variable that sets a field; the helper is set by none.
    pub open spec fn variable(self) -> Option<Seq<char>> {
        match self {
            AgentAuthRoutingFieldV1::AnthropicApiKey => Some("ANTHROPIC_API_KEY"@),
            AgentAuthRoutingFieldV1::AnthropicAuthToken => Some("ANTHROPIC_AUTH_TOKEN"@),
            AgentAuthRoutingFieldV1::AnthropicBaseUrl => Some("ANTHROPIC_BASE_URL"@),
            AgentAuthRoutingFieldV1::AnthropicCustomHeaders => Some("ANTHROPIC_CUSTOM_HEADERS"@),
            AgentAuthRoutingFieldV1::AnthropicModel => Some("ANTHROPIC_MODEL"@),
            AgentAuthRoutingFieldV1::ApiKeyHelper => None,
            AgentAuthRoutingFieldV1::Bedrock => Some("CLAUDE_CODE_USE_BEDROCK"@),
            AgentAuthRoutingFieldV1::Foundry => Some("CLAUDE_CODE_USE_FOUNDRY"@),
            AgentAuthRoutingFieldV1::Vertex => Some("CLAUDE_CODE_USE_VERTEX"@),
        }
    }

    /// The field that a variable sets.
    pub fn from_environment_name(name: &str) -> (r: Option<Self>)
        ensures
            match r {
                Some(field) => field.variable() == Some(name@),
                None => forall|field: Self| #[trigger] field.variable() != Some(name@),
            },
    {
        if same(name, "ANTHROPIC_API_KEY") {
            Some(AgentAuthRoutingFieldV1::AnthropicApiKey)
        } else if same(name, "ANTHROPIC_AUTH_TOKEN") {
            Some(AgentAuthRoutingFieldV1::AnthropicAuthToken)
        } else if same(name, "ANTHROPIC_BASE_URL") {
            Some(AgentAuthRoutingFieldV1::AnthropicBaseUrl)
        } else if same(name, "ANTHROPIC_CUSTOM_HEADERS") {
            Some(AgentAuthRoutingFieldV1::AnthropicCustomHeaders)
        } else if same(name, "ANTHROPIC_MODEL") {
            Some(AgentAuthRoutingFieldV1::AnthropicModel)
        } else if same(name, "CLAUDE_CODE_USE_BEDROCK") {
            Some(AgentAuthRoutingFieldV1::Bedrock)
        } else if same(name, "CLAUDE_CODE_USE_FOUNDRY") {
            Some(AgentAuthRoutingFieldV1::Foundry)
        } else if same(name, "CLAUDE_CODE_USE_VERTEX") {
            Some(AgentAuthRoutingFieldV1::Vertex)
        } else {
            None
        }
    }

    /// The name in documents.
    pub open spec fn wire(self) -> Seq<char> {
        match self {
            AgentAuthRoutingFieldV1::AnthropicApiKey => "anthropic_api_key"@,
            AgentAuthRoutingFieldV1::AnthropicAuthToken => "anthropic_auth_token"@,
            AgentAuthRoutingFieldV1::AnthropicBaseUrl => "anthropic_base_url"@,
            AgentAuthRoutingFieldV1::AnthropicCustomHeaders => "anthropic_custom_headers"@,
            AgentAuthRoutingFieldV1::AnthropicModel => "anthropic_model"@,
            AgentAuthRoutingFieldV1::ApiKeyHelper => "api_key_helper"@,
            AgentAuthRoutingFieldV1::Bedrock => "bedrock"@,
            AgentAuthRoutingFieldV1::Foundry => "foundry"@,
            AgentAuthRoutingFieldV1::Vertex => "vertex"@,
        }
    }

    pub fn wire_text(self) -> (r: &'static str)
        ensures
            r@ == self.wire(),
    {
        match self {
            AgentAuthRoutingFieldV1::AnthropicApiKey => "anthropic_api_key",
            AgentAuthRoutingFieldV1::AnthropicAuthToken => "anthropic_auth_token",
            AgentAuthRoutingFieldV1::AnthropicBaseUrl => "anthropic_base_url",
            AgentAuthRoutingFieldV1::AnthropicCustomHeaders => "anthropic_custom_headers",
            AgentAuthRoutingFieldV1::AnthropicModel => "anthropic_model",
            AgentAuthRoutingFieldV1::ApiKeyHelper => "api_key_helper",
            AgentAuthRoutingFieldV1::Bedrock => "bedrock",
            AgentAuthRoutingFieldV1::Foundry => "foundry",
            AgentAuthRoutingFieldV1::Vertex => "vertex",
        }
    }
}

/// The fields in their order.
pub open spec fn routing_fields() -> Seq<AgentAuthRoutingFieldV1> {
    seq![
        AgentAuthRoutingFieldV1::AnthropicApiKey,
        AgentAuthRoutingFieldV1::AnthropicAuthToken,
        AgentAuthRoutingFieldV1::AnthropicBaseUrl,
        AgentAuthRoutingFieldV1::AnthropicCustomHeaders,
        AgentAuthRoutingFieldV1::AnthropicModel,
        AgentAuthRoutingFieldV1::ApiKeyHelper,
        AgentAuthRoutingFieldV1::Bedrock,
        AgentAuthRoutingFieldV1::Foundry,
        AgentAuthRoutingFieldV1::Vertex,
    ]
}

/// Whether a source sets a field.
pub open spec fn sets_field(settings: SettingsView, field: AgentAuthRoutingFieldV1) -> bool {
    match field.variable() {
        Some(name) => settings.env.present.contains(name),
        None => settings.helper,
    }
}

pub open spec fn fields_set(settings: SettingsView) -> Seq<AgentAuthRoutingFieldV1> {
    routing_fields().filter(|field: AgentAuthRoutingFieldV1| sets_field(settings, field))
}

/// That variables were taken out of the environment of the launched process.
#[derive(Debug)]
pub struct ManagedLaunchWarningV1 {
    pub code: String,
    pub environment_removals: Vec<String>,
}

/// That a source decides routing or authentication and cannot be set aside.
#[derive(Debug)]
pub struct AgentAuthPrecedenceConflictV1 {
    pub code: String,
    pub layer: ConfigLayerV1,
    pub source_ref: String,
    pub fields: Vec<AgentAuthRoutingFieldV1>,
}

#[derive(Debug)]
pub struct ManagedClaudeLaunchPreflightV1 {
    pub executable: String,
    pub inherited_environment_removals: Vec<String>,
    pub warnings: Vec<ManagedLaunchWarningV1>,
    pub conflicts: Vec<AgentAuthPrecedenceConflictV1>,
}

pub struct ConflictView {
    pub layer: ConfigLayerV1,
    pub source_ref: Seq<char>,
    pub fields: Seq<AgentAuthRoutingFieldV1>,
}

impl View for AgentAuthPrecedenceConflictV1 {
    type V = ConflictView;

    open spec fn view(&self) -> ConflictView {
        ConflictView { layer: self.layer, source_ref: self.source_ref@, fields: self.fields@ }
    }
}

pub open spec fn conflicts_view(conflicts: Seq<AgentAuthPrecedenceConflictV1>) -> Seq<
    ConflictView,
> {
    conflicts.map_values(|conflict: AgentAuthPrecedenceConflictV1| conflict@)
}

/// The variables that the process's own environment passes on and that the launch takes out.
pub open spec fn inherited_of(values: Seq<ObservedView>, removals: Seq<Seq<char>>) -> Seq<Seq<char>>
    decreases values.len(),
{
    if values.len() == 0 {
        Seq::empty()
    } else {
        let before = inherited_of(values.drop_last(), removals);
        if values.last().layer == ConfigLayerV1::Process {
            before + values.last().settings.env.present.filter(
                |name: Seq<char>| removals.contains(name),
            )
        } else {
            before
        }
    }
}

/// The conflicts of the sources. Only a launch's own settings and managed policy conflict: what
/// other sources say is replaced by the private settings of the launch.
pub open spec fn conflicts_of(values: Seq<ObservedView>) -> Seq<ConflictView>
    decreases values.len(),
{
    if values.len() == 0 {
        Seq::empty()
    } else {
        let before = conflicts_of(values.drop_last());
        let last = values.last();
        let fields = fields_set(last.settings);
        if (last.layer == ConfigLayerV1::Launch || last.layer == ConfigLayerV1::Managed)
            && fields.len() > 0 {
            before.push(
                ConflictView { layer: last.layer, source_ref: last.source_ref, fields },
            )
        } else {
            before
        }
    }
}

fn field_list() -> (r: Vec<AgentAuthRoutingFieldV1>)
    ensures
        r@ == routing_fields(),
{
    let mut list: Vec<AgentAuthRoutingFieldV1> = Vec::new();
    list.push(AgentAuthRoutingFieldV1::AnthropicApiKey);
    list.push(AgentAuthRoutingFieldV1::AnthropicAuthToken);
    list.push(AgentAuthRoutingFieldV1::AnthropicBaseUrl);
    list.push(AgentAuthRoutingFieldV1::AnthropicCustomHeaders);
    list.push(AgentAuthRoutingFieldV1::AnthropicModel);
    list.push(AgentAuthRoutingFieldV1::ApiKeyHelper);
    list.push(AgentAuthRoutingFieldV1::Bedrock);
    list.push(AgentAuthRoutingFieldV1::Foundry);
    list.push(AgentAuthRoutingFieldV1::Vertex);
    assert(list@ =~= routing_fields());
    list
}

fn set_by(observed: &ObservedClaudeSettings, field: AgentAuthRoutingFieldV1) -> (r: bool)
    ensures
        r == sets_field(observed@.settings, field),
{
    let list = &observed.settings.env.present_environment_fields;
    match field {
        AgentAuthRoutingFieldV1::AnthropicApiKey => present(list, "ANTHROPIC_API_KEY"),
        AgentAuthRoutingFieldV1::AnthropicAuthToken => present(list, "ANTHROPIC_AUTH_TOKEN"),
        AgentAuthRoutingFieldV1::AnthropicBaseUrl => present(list, "ANTHROPIC_BASE_URL"),
        AgentAuthRoutingFieldV1::AnthropicCustomHeaders => present(
            list,
            "ANTHROPIC_CUSTOM_HEADERS",
        ),
        AgentAuthRoutingFieldV1::AnthropicModel => present(list, "ANTHROPIC_MODEL"),
        AgentAuthRoutingFieldV1::ApiKeyHelper => observed.settings.api_key_helper_present,
        AgentAuthRoutingFieldV1::Bedrock => present(list, "CLAUDE_CODE_USE_BEDROCK"),
        AgentAuthRoutingFieldV1::Foundry => present(list, "CLAUDE_CODE_USE_FOUNDRY"),
        AgentAuthRoutingFieldV1::Vertex => present(list, "CLAUDE_CODE_USE_VERTEX"),
    }
}

fn collect_fields(observed: &ObservedClaudeSettings) -> (r: Vec<AgentAuthRoutingFieldV1>)
    ensures
        r@ == fields_set(observed@.settings),
{
    let all = field_list();
    let ghost settings = observed@.settings;
    let ghost keep = |field: AgentAuthRoutingFieldV1| sets_field(settings, field);
    let mut out: Vec<AgentAuthRoutingFieldV1> = Vec::new();
    let mut i: usize = 0;
    proof {
        reveal(Seq::filter);
        assert(all@.take(0).filter(keep) =~= Seq::<AgentAuthRoutingFieldV1>::empty());
    }
    while i < all.len()
        invariant
            i <= all.len(),
            settings == observed@.settings,
            keep == (|field: AgentAuthRoutingFieldV1| sets_field(settings, field)),
            out@ == all@.take(i as int).filter(keep),
        decreases all.len() - i,
    {
        proof {
            reveal(Seq::filter);
            assert(all@.take(i + 1).drop_last() == all@.take(i as int));
            assert(all@.take(i + 1).last() == all@[i as int]);
        }
        if set_by(observed, all[i]) {
            out.push(all[i]);
        }
        i += 1;
    }
    assert(all@.take(i as int) == all@);
    out
}

fn push_inherited(out: &mut Vec<String>, names: &Vec<String>, removals: &Vec<String>, Ghost(
    collected,
): Ghost<Seq<Seq<char>>>)
    requires
        views_of(old(out)@) == in_order(collected),
    ensures
        views_of(final(out)@) == in_order(
            collected + views_of(names@).filter(
                |name: Seq<char>| views_of(removals@).contains(name),
            ),
        ),
{
    let ghost all = views_of(names@);
    let ghost keep = |name: Seq<char>| views_of(removals@).contains(name);
    let mut i: usize = 0;
    proof {
        reveal(Seq::filter);
        assert(collected + all.take(0).filter(keep) =~= collected);
    }
    while i < names.len()
        invariant
            i <= names.len(),
            all == views_of(names@),
            keep == (|name: Seq<char>| views_of(removals@).contains(name)),
            views_of(out@) == in_order(collected + all.take(i as int).filter(keep)),
        decreases names.len() - i,
    {
        let ghost before = collected + all.take(i as int).filter(keep);
        proof {
            reveal(Seq::filter);
            assert(all.take(i + 1).drop_last() == all.take(i as int));
            assert(all.take(i + 1).last() == names@[i as int]@);
        }
        if present(removals, names[i].as_str()) {
            insert_in_order(out, names[i].as_str());
            proof {
                let after = collected + all.take(i + 1).filter(keep);
                assert(after =~= before.push(names@[i as int]@));
                assert(after.drop_last() =~= before);
                assert(after.last() == names@[i as int]@);
            }
        }
        i += 1;
    }
    assert(all.take(i as int) == all);
}

impl ManagedClaudeLaunchPreflightV1 {
    /// Looks at every source before a launch.
    pub fn from_observations(
        executable: String,
        environment_removals: &Vec<String>,
        observations: &Vec<ObservedClaudeSettings>,
    ) -> (r: Self)
        ensures
            r.executable@ == executable@,
            views_of(r.inherited_environment_removals@) == in_order(
                inherited_of(observed_view(observations@), views_of(environment_removals@)),
            ),
            conflicts_view(r.conflicts@) == conflicts_of(observed_view(observations@)),
            r.wf(),
    {
        let ghost all = observed_view(observations@);
        let ghost removals = views_of(environment_removals@);
        let mut inherited: Vec<String> = Vec::new();
        let mut conflicts: Vec<AgentAuthPrecedenceConflictV1> = Vec::new();
        let mut i: usize = 0;
        proof {
            assert(all.take(0) == Seq::<ObservedView>::empty());
            assert(views_of(inherited@) =~= in_order(inherited_of(all.take(0), removals)));
            assert(conflicts_view(conflicts@) =~= conflicts_of(all.take(0)));
        }
        while i < observations.len()
            invariant
                i <= observations.len(),
                all == observed_view(observations@),
                removals == views_of(environment_removals@),
                views_of(inherited@) == in_order(inherited_of(all.take(i as int), removals)),
                conflicts_view(conflicts@) == conflicts_of(all.take(i as int)),
                forall|k: int|
                    0 <= k < conflicts@.len() ==> (#[trigger] conflicts@[k]).code@
                        == AGENT_AUTH_PRECEDENCE_CONFLICT_V1@,
            decreases observations.len() - i,
        {
            let observed = &observations[i];
            proof {
                assert(all[i as int] == observed@);
                assert(all.take(i + 1).drop_last() == all.take(i as int));
                assert(all.take(i + 1).last() == observed@);
            }
            if observed.layer == ConfigLayerV1::Process {
                push_inherited(
                    &mut inherited,
                    &observed.settings.env.present_environment_fields,
                    environment_removals,
                    Ghost(inherited_of(all.take(i as int), removals)),
                );
            }
            if observed.layer == ConfigLayerV1::Launch || observed.layer == ConfigLayerV1::Managed {
                let fields = collect_fields(observed);
                if fields.len() > 0 {
                    let ghost before = conflicts_view(conflicts@);
                    conflicts.push(
                        AgentAuthPrecedenceConflictV1 {
                            code: AGENT_AUTH_PRECEDENCE_CONFLICT_V1.to_owned(),
                            layer: observed.layer,
                            source_ref: observed.source_ref.clone(),
                            fields,
                        },
                    );
                    assert(conflicts_view(conflicts@) =~= before.push(conflicts@.last()@));
                }
            }
            i += 1;
        }
        assert(all.take(i as int) == all);
        let mut warnings: Vec<ManagedLaunchWarningV1> = Vec::new();
        if inherited.len() > 0 {
            warnings.push(
                ManagedLaunchWarningV1 {
                    code: MANAGED_LAUNCH_ENV_SANITIZED_V1.to_owned(),
                    environment_removals: copied_texts(&inherited),
                },
            );
        }
        ManagedClaudeLaunchPreflightV1 {
            executable,
            inherited_environment_removals: inherited,
            warnings,
            conflicts,
        }
    }

    /// A preflight warns once, of all that it takes out, and each conflict carries its code.
    pub open spec fn wf(&self) -> bool {
        &&& self.warnings@.len() == (if self.inherited_environment_removals@.len() > 0 {
            1int
        } else {
            0
        })
        &&& self.warnings@.len() > 0 ==> self.warnings@[0].code@
            == MANAGED_LAUNCH_ENV_SANITIZED_V1@ && views_of(
            self.warnings@[0].environment_removals@,
        ) == views_of(self.inherited_environment_removals@)
        &&& forall|k: int|
            0 <= k < self.conflicts@.len() ==> (#[trigger] self.conflicts@[k]).code@
                == AGENT_AUTH_PRECEDENCE_CONFLICT_V1@
    }

    pub fn is_launchable(&self) -> (r: bool)
        ensures
            r == (self.conflicts@.len() == 0),
    {
        self.conflicts.len() == 0
    }
}

pub open spec fn texts_json(texts: Seq<Seq<char>>) -> JsonView {
    JsonView::Array(texts.map_values(|text: Seq<char>| JsonView::Str(text)))
}

fn texts_to_json(texts: &Vec<String>) -> (r: Json)
    ensures
        r@ == texts_json(views_of(texts@)),
{
    let ghost all = views_of(texts@);
    let ghost project = |text: Seq<char>| JsonView::Str(text);
    let mut items: Vec<Json> = Vec::new();
    let mut i: usize = 0;
    assert(array_view(items@) =~= all.take(0).map_values(project));
    while i < texts.len()
        invariant
            i <= texts.len(),
            all == views_of(texts@),
            project == (|text: Seq<char>| JsonView::Str(text)),
            array_view(items@) == all.take(i as int).map_values(project),
        decreases texts.len() - i,
    {
        let ghost before = items@;
        items.push(Json::Str(texts[i].clone()));
        proof {
            assert(items@.drop_last() == before);
            assert(items@.last()@ == JsonView::Str(all[i as int]));
            assert(all.take(i + 1).map_values(project) =~= all.take(i as int).map_values(
                project,
            ).push(JsonView::Str(all[i as int])));
        }
        i += 1;
    }
    assert(all.take(i as int) == all);
    Json::Array(items)
}

pub open spec fn field_names(fields: Seq<AgentAuthRoutingFieldV1>) -> Seq<Seq<char>> {
    fields.map_values(|field: AgentAuthRoutingFieldV1| field.wire())
}

pub open spec fn conflict_json(conflict: ConflictView) -> JsonView {
    JsonView::Object(
        map![
            "code"@ => JsonView::Str(AGENT_AUTH_PRECEDENCE_CONFLICT_V1@),
            "layer"@ => JsonView::Str(conflict.layer.wire()),
            "source_ref"@ => JsonView::Str(conflict.source_ref),
            "fields"@ => texts_json(field_names(conflict.fields)),
        ],
    )
}

fn conflict_to_json(conflict: &AgentAuthPrecedenceConflictV1) -> (r: Json)
    requires
        conflict.code@ == AGENT_AUTH_PRECEDENCE_CONFLICT_V1@,
    ensures
        r@ == conflict_json(conflict@),
{
    let ghost all = conflict.fields@;
    let mut names: Vec<String> = Vec::new();
    let mut i: usize = 0;
    assert(views_of(names@) =~= field_names(all.take(0)));
    while i < conflict.fields.len()
        invariant
            i <= conflict.fields.len(),
            all == conflict.fields@,
            views_of(names@) == field_names(all.take(i as int)),
        decreases conflict.fields.len() - i,
    {
        let ghost before = views_of(names@);
        names.push(conflict.fields[i].wire_text().to_owned());
        proof {
            assert(views_of(names@) =~= before.push(all[i as int].wire()));
            assert(field_names(all.take(i + 1)) =~= field_names(all.take(i as int)).push(
                all[i as int].wire(),
            ));
        }
        i += 1;
    }
    assert(all.take(i as int) == all);
    let mut members: Vec<(String, Json)> = Vec::new();
    put_member(&mut members, "code", Json::Str(conflict.code.clone()));
    put_member(&mut members, "layer", Json::Str(conflict.layer.wire_text().to_owned()));
    put_member(&mut members, "source_ref", Json::Str(conflict.source_ref.clone()));
    put_member(&mut members, "fields", texts_to_json(&names));
    Json::Object(members)
}

pub open spec fn warnings_json(inherited: Seq<Seq<char>>) -> Seq<JsonView> {
    if inherited.len() > 0 {
        seq![
            JsonView::Object(
                map![
                    "code"@ => JsonView::Str(MANAGED_LAUNCH_ENV_SANITIZED_V1@),
                    "environment_removals"@ => texts_json(inherited),
                ],
            ),
        ]
    } else {
        Seq::empty()
    }
}

/// A preflight as a document.
pub open spec fn preflight_json(
    executable: Seq<char>,
    inherited: Seq<Seq<char>>,
    conflicts: Seq<ConflictView>,
) -> JsonView {
    JsonView::Object(
        map![
            "executable"@ => JsonView::Str(executable),
            "inherited_environment_removals"@ => texts_json(inherited),
            "warnings"@ => JsonView::Array(warnings_json(inherited)),
            "conflicts"@ => JsonView::Array(
                conflicts.map_values(|conflict: ConflictView| conflict_json(conflict)),
            ),
        ],
    )
}

impl ManagedClaudeLaunchPreflightV1 {
    pub fn to_json(&self) -> (r: Json)
        requires
            self.wf(),
        ensures
            r@ == preflight_json(
                self.executable@,
                views_of(self.inherited_environment_removals@),
                conflicts_view(self.conflicts@),
            ),
    {
        let ghost inherited = views_of(self.inherited_environment_removals@);
        let mut warnings: Vec<Json> = Vec::new();
        if self.inherited_environment_removals.len() > 0 {
            let mut members: Vec<(String, Json)> = Vec::new();
            put_member(&mut members, "code", Json::Str(MANAGED_LAUNCH_ENV_SANITIZED_V1.to_owned()));
            put_member(
                &mut members,
                "environment_removals",
                texts_to_json(&self.inherited_environment_removals),
            );
            warnings.push(Json::Object(members));
        }
        proof {
            lemma_array_view(warnings@);
            assert(inherited.len() == self.inherited_environment_removals@.len());
            assert(array_view(warnings@) =~= warnings_json(inherited));
        }
        let ghost all = conflicts_view(self.conflicts@);
        let ghost project = |conflict: ConflictView| conflict_json(conflict);
        let mut conflicts: Vec<Json> = Vec::new();
        let mut i: usize = 0;
        assert(array_view(conflicts@) =~= all.take(0).map_values(project));
        while i < self.conflicts.len()
            invariant
                i <= self.conflicts.len(),
                self.wf(),
                all == conflicts_view(self.conflicts@),
                project == (|conflict: ConflictView| conflict_json(conflict)),
                array_view(conflicts@) == all.take(i as int).map_values(project),
            decreases self.conflicts.len() - i,
        {
            let ghost before = conflicts@;
            conflicts.push(conflict_to_json(&self.conflicts[i]));
            proof {
                assert(conflicts@.drop_last() == before);
                assert(all[i as int] == self.conflicts@[i as int]@);
                assert(all.take(i + 1).map_values(project) =~= all.take(i as int).map_values(
                    project,
                ).push(conflict_json(all[i as int])));
            }
            i += 1;
        }
        assert(all.take(i as int) == all);
        let mut members: Vec<(String, Json)> = Vec::new();
        put_member(&mut members, "executable", Json::Str(self.executable.clone()));
        put_member(
            &mut members,
            "inherited_environment_removals",
            texts_to_json(&self.inherited_environment_removals),
        );
        put_member(&mut members, "warnings", Json::Array(warnings));
        put_member(&mut members, "conflicts", Json::Array(conflicts));
        Json::Object(members)
    }
}

/// What a managed launch is described by.
#[derive(Debug)]
pub struct ManagedClaudeLaunchDescriptorV2 {
    pub executable: String,
    pub gateway_base_url: String,
    pub preset_opus: Option<String>,
    pub preset_sonnet: Option<String>,
    pub preset_haiku: Option<String>,
    pub helper_executable: String,
    pub helper_argv: Vec<String>,
    pub environment_removals: Vec<String>,
    pub context_window_tokens: Option<u64>,
}

pub struct LaunchView {
    pub executable: Seq<char>,
    pub gateway_base_url: Seq<char>,
    pub opus: Option<Seq<char>>,
    pub sonnet: Option<Seq<char>>,
    pub haiku: Option<Seq<char>>,
    pub helper: Seq<Seq<char>>,
    pub removals: Seq<Seq<char>>,
    pub window: Option<u64>,
}

impl View for ManagedClaudeLaunchDescriptorV2 {
    type V = LaunchView;

    open spec fn view(&self) -> LaunchView {
        LaunchView {
            executable: self.executable@,
            gateway_base_url: self.gateway_base_url@,
            opus: maybe_text(self.preset_opus),
            sonnet: maybe_text(self.preset_sonnet),
            haiku: maybe_text(self.preset_haiku),
            helper: seq![self.helper_executable@] + views_of(self.helper_argv@),
            removals: views_of(self.environment_removals@),
            window: self.context_window_tokens,
        }
    }
}

#[derive(Clone, Copy, Debug, PartialEq, Eq, Structural)]
pub enum ManagedClaudeProcessError {
    Unavailable,
}

/// Changes to an environment: a variable is set, or taken out.
pub type Variables = Map<Seq<char>, Option<Seq<char>>>;

/// What a list of changes comes to; a later one counts.
pub open spec fn variables_view(changes: Seq<(String, Option<String>)>) -> Variables
    decreases changes.len(),
{
    if changes.len() == 0 {
        Map::empty()
    } else {
        variables_view(changes.drop_last()).insert(
            changes.last().0@,
            maybe_text(changes.last().1),
        )
    }
}

fn put_variable(changes: &mut Vec<(String, Option<String>)>, name: &str, value: Option<String>)
    ensures
        variables_view(final(changes)@) == variables_view(old(changes)@).insert(
            name@,
            maybe_text(value),
        ),
{
    let ghost before = changes@;
    changes.push((name.to_owned(), value));
    assert(changes@.drop_last() == before);
}

/// Whether a variable is one that the launch sets to a value of its own or leaves out.
pub open spec fn is_left_out(name: Seq<char>) -> bool {
    name == "ANTHROPIC_BASE_URL"@ || name == "ANTHROPIC_MODEL"@
}

/// Takes out each variable of a list. All but the address and the model are set to nothing, so
/// that no settings file brings them back.
pub open spec fn with_removals(variables: Variables, removals: Seq<Seq<char>>) -> Variables
    decreases removals.len(),
{
    if removals.len() == 0 {
        variables
    } else {
        with_removals(variables, removals.drop_last()).insert(
            removals.last(),
            if is_left_out(removals.last()) {
                None
            } else {
                Some(Seq::empty())
            },
        )
    }
}

pub open spec fn without_all(variables: Variables, names: Seq<Seq<char>>) -> Variables
    decreases names.len(),
{
    if names.len() == 0 {
        variables
    } else {
        without_all(variables, names.drop_last()).insert(names.last(), None)
    }
}

/// The environment of a launch. A context window takes the variables away that contradict it.
pub open spec fn environment_of(launch: LaunchView, conflicts: Seq<Seq<char>>) -> Variables {
    let plain = with_removals(Map::empty(), launch.removals).insert(
        "ANTHROPIC_DEFAULT_OPUS_MODEL"@,
        launch.opus,
    ).insert("ANTHROPIC_DEFAULT_SONNET_MODEL"@, launch.sonnet).insert(
        "ANTHROPIC_DEFAULT_HAIKU_MODEL"@,
        launch.haiku,
    ).insert("ANTHROPIC_BASE_URL"@, Some(launch.gateway_base_url));
    match launch.window {
        Some(window) => without_all(plain, conflicts).insert(
            "CLAUDE_CODE_AUTO_COMPACT_WINDOW"@,
            Some(decimal_text(window as nat)),
        ).insert("CLAUDE_CODE_MAX_CONTEXT_TOKENS"@, Some(decimal_text(window as nat))),
        None => plain,
    }
}

fn copied(text: &Option<String>) -> (r: Option<String>)
    ensures
        maybe_text(r) == maybe_text(*text),
{
    match text {
        Some(text) => Some(text.clone()),
        None => None,
    }
}

/// The changes that a launch makes to its environment.
pub fn launch_environment(descriptor: &ManagedClaudeLaunchDescriptorV2, conflicts: &Vec<String>) -> (r:
    Vec<(String, Option<String>)>)
    ensures
        variables_view(r@) == environment_of(descriptor@, views_of(conflicts@)),
{
    let ghost removals = views_of(descriptor.environment_removals@);
    let mut changes: Vec<(String, Option<String>)> = Vec::new();
    let mut i: usize = 0;
    assert(removals.take(0) == Seq::<Seq<char>>::empty());
    while i < descriptor.environment_removals.len()
        invariant
            i <= descriptor.environment_removals.len(),
            removals == views_of(descriptor.environment_removals@),
            variables_view(changes@) == with_removals(Map::empty(), removals.take(i as int)),
        decreases descriptor.environment_removals.len() - i,
    {
        let name = descriptor.environment_removals[i].as_str();
        proof {
            assert(removals.take(i + 1).drop_last() == removals.take(i as int));
            assert(removals.take(i + 1).last() == name@);
            reveal_strlit("");
            assert(""@ =~= Seq::<char>::empty());
        }
        if same(name, "ANTHROPIC_BASE_URL") || same(name, "ANTHROPIC_MODEL") {
            put_variable(&mut changes, name, None);
        } else {
            put_variable(&mut changes, name, Some("".to_owned()));
        }
        i += 1;
    }
    assert(removals.take(i as int) == removals);
    put_variable(&mut changes, "ANTHROPIC_DEFAULT_OPUS_MODEL", copied(&descriptor.preset_opus));
    put_variable(
        &mut changes,
        "ANTHROPIC_DEFAULT_SONNET_MODEL",
        copied(&descriptor.preset_sonnet),
    );
    put_variable(&mut changes, "ANTHROPIC_DEFAULT_HAIKU_MODEL", copied(&descriptor.preset_haiku));
    put_variable(
        &mut changes,
        "ANTHROPIC_BASE_URL",
        Some(descriptor.gateway_base_url.clone()),
    );
    match descriptor.context_window_tokens {
        Some(window) => {
            let ghost plain = variables_view(changes@);
            let ghost names = views_of(conflicts@);
            let mut k: usize = 0;
            assert(names.take(0) == Seq::<Seq<char>>::empty());
            while k < conflicts.len()
                invariant
                    k <= conflicts.len(),
                    names == views_of(conflicts@),
                    variables_view(changes@) == without_all(plain, names.take(k as int)),
                decreases conflicts.len() - k,
            {
                proof {
                    assert(names.take(k + 1).drop_last() == names.take(k as int));
                    assert(names.take(k + 1).last() == conflicts@[k as int]@);
                }
                put_variable(&mut changes, conflicts[k].as_str(), None);
                k += 1;
            }
            assert(names.take(k as int) == names);
            put_variable(
                &mut changes,
                "CLAUDE_CODE_AUTO_COMPACT_WINDOW",
                Some(decimal(window)),
            );
            put_variable(&mut changes, "CLAUDE_CODE_MAX_CONTEXT_TOKENS", Some(decimal(window)));
        },
        None => {},
    }
    changes
}

/// The arguments of a launch: the private settings, then what the caller gave.
pub fn launch_arguments(settings_argument: &str, overlay: &str, child_arguments: &Vec<String>) -> (r:
    Vec<String>)
    ensures
        views_of(r@) == seq![settings_argument@, overlay@] + views_of(child_arguments@),
{
    let mut out: Vec<String> = Vec::new();
    out.push(settings_argument.to_owned());
    out.push(overlay.to_owned());
    let ghost head = views_of(out@);
    let ghost all = views_of(child_arguments@);
    assert(head =~= seq![settings_argument@, overlay@]);
    let mut i: usize = 0;
    assert(head + all.take(0) =~= head);
    while i < child_arguments.len()
        invariant
            i <= child_arguments.len(),
            all == views_of(child_arguments@),
            views_of(out@) == head + all.take(i as int),
        decreases child_arguments.len() - i,
    {
        let ghost before = views_of(out@);
        out.push(child_arguments[i].clone());
        proof {
            assert(views_of(out@) =~= before.push(all[i as int]));
            assert(all.take(i + 1) =~= all.take(i as int).push(all[i as int]));
        }
        i += 1;
    }
    assert(all.take(i as int) == all);
    out
}

/// The executable must be named by its canonical path and be a file that can be run.
pub fn verify_claude_executable(
    executable: &str,
    canonical: Option<&str>,
    target: Option<(bool, u32)>,
) -> (r: Result<(), ManagedClaudeProcessError>)
    ensures
        r is Ok == (canonical is Some && canonical->0@ == executable@ && runnable_fault(
            target,
        ) is None),
{
    match canonical {
        None => Err(ManagedClaudeProcessError::Unavailable),
        Some(canonical) => {
            if !same(canonical, executable) {
                return Err(ManagedClaudeProcessError::Unavailable);
            }
            match check_runnable(target) {
                Ok(()) => Ok(()),
                Err(_) => Err(ManagedClaudeProcessError::Unavailable),
            }
        },
    }
}

/// The variables that a launch decides, whatever the user's settings say.
pub open spec fn decided_names() -> Seq<Seq<char>> {
    seq![
        "ANTHROPIC_API_KEY"@,
        "ANTHROPIC_AUTH_TOKEN"@,
        "ANTHROPIC_BASE_URL"@,
        "ANTHROPIC_CUSTOM_HEADERS"@,
        "ANTHROPIC_MODEL"@,
        "ANTHROPIC_DEFAULT_OPUS_MODEL"@,
        "ANTHROPIC_DEFAULT_SONNET_MODEL"@,
        "ANTHROPIC_DEFAULT_HAIKU_MODEL"@,
        "CLAUDE_CODE_USE_BEDROCK"@,
        "CLAUDE_CODE_USE_FOUNDRY"@,
        "CLAUDE_CODE_USE_VERTEX"@,
    ]
}

fn decided_list() -> (r: Vec<String>)
    ensures
        views_of(r@) == decided_names(),
{
    let mut names: Vec<String> = Vec::new();
    names.push("ANTHROPIC_API_KEY".to_owned());
    names.push("ANTHROPIC_AUTH_TOKEN".to_owned());
    names.push("ANTHROPIC_BASE_URL".to_owned());
    names.push("ANTHROPIC_CUSTOM_HEADERS".to_owned());
    names.push("ANTHROPIC_MODEL".to_owned());
    names.push("ANTHROPIC_DEFAULT_OPUS_MODEL".to_owned());
    names.push("ANTHROPIC_DEFAULT_SONNET_MODEL".to_owned());
    names.push("ANTHROPIC_DEFAULT_HAIKU_MODEL".to_owned());
    names.push("CLAUDE_CODE_USE_BEDROCK".to_owned());
    names.push("CLAUDE_CODE_USE_FOUNDRY".to_owned());
    names.push("CLAUDE_CODE_USE_VERTEX".to_owned());
    assert(views_of(names@) =~= decided_names());
    names
}

/// Members without those of the names.
pub open spec fn without_members(members: Members, names: Seq<Seq<char>>) -> Members
    decreases names.len(),
{
    if names.len() == 0 {
        members
    } else {
        without_members(members, names.drop_last()).remove(names.last())
    }
}

fn remove_members(members: &mut Vec<(String, Json)>, names: &Vec<String>)
    ensures
        object_view(final(members)@) == without_members(
            object_view(old(members)@),
            views_of(names@),
        ),
{
    let ghost start = object_view(members@);
    let ghost all = views_of(names@);
    let mut i: usize = 0;
    assert(all.take(0) == Seq::<Seq<char>>::empty());
    while i < names.len()
        invariant
            i <= names.len(),
            all == views_of(names@),
            object_view(members@) == without_members(start, all.take(i as int)),
        decreases names.len() - i,
    {
        proof {
            assert(all.take(i + 1).drop_last() == all.take(i as int));
            assert(all.take(i + 1).last() == names@[i as int]@);
        }
        remove_member(members, names[i].as_str());
        i += 1;
    }
    assert(all.take(i as int) == all);
}

/// Sets each variable of a list to nothing, but for the address and the model.
pub open spec fn with_blanks(env: Members, removals: Seq<Seq<char>>) -> Members
    decreases removals.len(),
{
    if removals.len() == 0 {
        env
    } else {
        let before = with_blanks(env, removals.drop_last());
        if is_left_out(removals.last()) {
            before
        } else {
            before.insert(removals.last(), JsonView::Str(Seq::empty()))
        }
    }
}

fn put_blanks(env: &mut Vec<(String, Json)>, removals: &Vec<String>)
    ensures
        object_view(final(env)@) == with_blanks(object_view(old(env)@), views_of(removals@)),
{
    let ghost start = object_view(env@);
    let ghost all = views_of(removals@);
    let mut i: usize = 0;
    assert(all.take(0) == Seq::<Seq<char>>::empty());
    while i < removals.len()
        invariant
            i <= removals.len(),
            all == views_of(removals@),
            object_view(env@) == with_blanks(start, all.take(i as int)),
        decreases removals.len() - i,
    {
        let name = removals[i].as_str();
        proof {
            assert(all.take(i + 1).drop_last() == all.take(i as int));
            assert(all.take(i + 1).last() == name@);
            reveal_strlit("");
            assert(""@ =~= Seq::<char>::empty());
        }
        if !same(name, "ANTHROPIC_BASE_URL") && !same(name, "ANTHROPIC_MODEL") {
            put_member(env, name, Json::Str("".to_owned()));
        }
        i += 1;
    }
    assert(all.take(i as int) == all);
}

pub open spec fn or_nothing(text: Option<Seq<char>>) -> JsonView {
    match text {
        Some(text) => JsonView::Str(text),
        None => JsonView::Str(Seq::empty()),
    }
}

fn text_or_nothing(text: &Option<String>) -> (r: Json)
    ensures
        r@ == or_nothing(maybe_text(*text)),
{
    match text {
        Some(text) => Json::Str(text.clone()),
        None => {
            proof {
                reveal_strlit("");
                assert(""@ =~= Seq::<char>::empty());
            }
            Json::Str("".to_owned())
        },
    }
}

/// The environment in the private settings.
pub open spec fn overlay_env(launch: LaunchView, env: Members, conflicts: Seq<Seq<char>>) -> Members {
    let plain = with_blanks(without_members(env, decided_names()), launch.removals).insert(
        "ANTHROPIC_BASE_URL"@,
        JsonView::Str(launch.gateway_base_url),
    ).insert("ANTHROPIC_DEFAULT_OPUS_MODEL"@, or_nothing(launch.opus)).insert(
        "ANTHROPIC_DEFAULT_SONNET_MODEL"@,
        or_nothing(launch.sonnet),
    ).insert("ANTHROPIC_DEFAULT_HAIKU_MODEL"@, or_nothing(launch.haiku));
    match launch.window {
        Some(window) => without_members(plain, conflicts).insert(
            "CLAUDE_CODE_AUTO_COMPACT_WINDOW"@,
            JsonView::Str(decimal_text(window as nat)),
        ).insert(
            "CLAUDE_CODE_MAX_CONTEXT_TOKENS"@,
            JsonView::Str(decimal_text(window as nat)),
        ),
        None => plain,
    }
}

pub open spec fn members_or_none(json: JsonView) -> Members {
    match json {
        JsonView::Object(members) => members,
        _ => Map::empty(),
    }
}

pub open spec fn env_or_none(members: Members) -> Members {
    if members.contains_key("env"@) {
        members_or_none(members["env"@])
    } else {
        Map::empty()
    }
}

pub open spec fn quoted_words(words: Seq<Seq<char>>) -> Seq<Seq<char>> {
    words.map_values(|word: Seq<char>| shell_quoted(word))
}

/// The private settings of a launch: the user's, with the launch's own routing, credentials and
/// helper in place of theirs.
pub open spec fn overlay_of(launch: LaunchView, settings: JsonView, conflicts: Seq<Seq<char>>) -> Members {
    let members = members_or_none(settings);
    members.insert(
        "env"@,
        JsonView::Object(overlay_env(launch, env_or_none(members), conflicts)),
    ).insert("apiKeyHelper"@, JsonView::Str(joined_with(quoted_words(launch.helper), " "@)))
}

fn helper_text(descriptor: &ManagedClaudeLaunchDescriptorV2) -> (r: String)
    ensures
        r@ == joined_with(quoted_words(descriptor@.helper), " "@),
{
    let ghost words = descriptor@.helper;
    let ghost all = views_of(descriptor.helper_argv@);
    let mut parts: Vec<String> = Vec::new();
    parts.push(shell_quote(descriptor.helper_executable.as_str()));
    let mut i: usize = 0;
    assert(views_of(parts@) =~= quoted_words(words.take(1)));
    while i < descriptor.helper_argv.len()
        invariant
            i <= descriptor.helper_argv.len(),
            words == descriptor@.helper,
            all == views_of(descriptor.helper_argv@),
            views_of(parts@) == quoted_words(words.take(i + 1)),
        decreases descriptor.helper_argv.len() - i,
    {
        let ghost before = views_of(parts@);
        parts.push(shell_quote(descriptor.helper_argv[i].as_str()));
        proof {
            assert(words[i + 1] == all[i as int]);
            assert(views_of(parts@) =~= before.push(shell_quoted(words[i + 1])));
            assert(quoted_words(words.take(i + 2)) =~= quoted_words(words.take(i + 1)).push(
                shell_quoted(words[i + 1]),
            ));
        }
        i += 1;
    }
    assert(words.take(i + 1) == words);
    join_texts(&parts, " ")
}

/// Makes the private settings of a launch.
pub fn launch_overlay(
    descriptor: &ManagedClaudeLaunchDescriptorV2,
    user_settings: &Json,
    conflicts: &Vec<String>,
) -> (r: Json)
    ensures
        r@ == JsonView::Object(overlay_of(descriptor@, user_settings@, views_of(conflicts@))),
{
    let mut overlay = match user_settings {
        Json::Object(members) => copied_members(members),
        _ => Vec::new(),
    };
    let ghost members = members_or_none(user_settings@);
    assert(object_view(overlay@) =~= members);
    let mut env = match find_member(&overlay, "env") {
        Some(Json::Object(env)) => copied_members(env),
        _ => Vec::new(),
    };
    assert(object_view(env@) =~= env_or_none(members));
    remove_members(&mut env, &decided_list());
    put_blanks(&mut env, &descriptor.environment_removals);
    put_member(&mut env, "ANTHROPIC_BASE_URL", Json::Str(descriptor.gateway_base_url.clone()));
    put_member(&mut env, "ANTHROPIC_DEFAULT_OPUS_MODEL", text_or_nothing(&descriptor.preset_opus));
    put_member(
        &mut env,
        "ANTHROPIC_DEFAULT_SONNET_MODEL",
        text_or_nothing(&descriptor.preset_sonnet),
    );
    put_member(
        &mut env,
        "ANTHROPIC_DEFAULT_HAIKU_MODEL",
        text_or_nothing(&descriptor.preset_haiku),
    );
    match descriptor.context_window_tokens {
        Some(window) => {
            remove_members(&mut env, conflicts);
            put_member(
                &mut env,
                "CLAUDE_CODE_AUTO_COMPACT_WINDOW",
                Json::Str(decimal(window)),
            );
            put_member(&mut env, "CLAUDE_CODE_MAX_CONTEXT_TOKENS", Json::Str(decimal(window)));
        },
        None => {},
    }
    put_member(&mut overlay, "env", Json::Object(env));
    put_member(&mut overlay, "apiKeyHelper", Json::Str(helper_text(descriptor)));
    Json::Object(overlay)
}

/// The bytes of the private settings.
pub fn write_overlay(
    descriptor: &ManagedClaudeLaunchDescriptorV2,
    user_settings: &Json,
    conflicts: &Vec<String>,
) -> (r: Vec<u8>)
    ensures
        r@ == compact_json(
            JsonView::Object(overlay_of(descriptor@, user_settings@, views_of(conflicts@))),
        ),
{
    to_bytes(&launch_overlay(descriptor, user_settings, conflicts))
}

pub(crate) proof fn lemma_without_members(members: Members, names: Seq<Seq<char>>, name: Seq<char>)
    ensures
        names.contains(name) ==> !without_members(members, names).contains_key(name),
        !names.contains(name) ==> without_members(members, names).contains_key(name)
            == members.contains_key(name) && (members.contains_key(name) ==> without_members(
            members,
            names,
        )[name] == members[name]),
    decreases names.len(),
{
    if names.len() > 0 {
        let rest = names.drop_last();
        lemma_without_members(members, rest, name);
        assert(names.contains(name) == (rest.contains(name) || names.last() == name)) by {
            if names.contains(name) {
                let k = choose|k: int| 0 <= k < names.len() && names[k] == name;
                if k < rest.len() {
                    assert(rest[k] == name);
                }
            }
            if rest.contains(name) {
                let k = choose|k: int| 0 <= k < rest.len() && rest[k] == name;
                assert(names[k] == name);
            }
            assert(names[names.len() - 1] == names.last());
        }
    }
}

pub(crate) proof fn lemma_with_blanks(env: Members, removals: Seq<Seq<char>>, name: Seq<char>)
    ensures
        ({
            let after = with_blanks(env, removals);
            if removals.contains(name) && !is_left_out(name) {
                after.contains_key(name) && after[name] == JsonView::Str(Seq::empty())
            } else {
                after.contains_key(name) == env.contains_key(name) && (env.contains_key(name)
                    ==> after[name] == env[name])
            }
        }),
    decreases removals.len(),
{
    if removals.len() > 0 {
        let rest = removals.drop_last();
        lemma_with_blanks(env, rest, name);
        assert(removals.contains(name) == (rest.contains(name) || removals.last() == name)) by {
            if removals.contains(name) {
                let k = choose|k: int| 0 <= k < removals.len() && removals[k] == name;
                if k < rest.len() {
                    assert(rest[k] == name);
                }
            }
            if rest.contains(name) {
                let k = choose|k: int| 0 <= k < rest.len() && rest[k] == name;
                assert(removals[k] == name);
            }
            assert(removals[removals.len() - 1] == removals.last());
        }
    }
}

/// A launch leaves every setting of the user alone that is neither the helper nor in the
/// environment, and every variable that it does not decide.
pub proof fn launches_keep_unrelated_settings(
    launch: LaunchView,
    settings: JsonView,
    conflicts: Seq<Seq<char>>,
    name: Seq<char>,
)
    ensures
        ({
            let user = members_or_none(settings);
            let overlay = overlay_of(launch, settings, conflicts);
            &&& name != "env"@ && name != "apiKeyHelper"@ ==> overlay.contains_key(name)
                == user.contains_key(name) && (user.contains_key(name) ==> overlay[name]
                == user[name])
            &&& overlay["env"@] is Object
            &&& (!decided_names().contains(name) && !launch.removals.contains(name)
                && (launch.window is None || (!conflicts.contains(name) && name
                != "CLAUDE_CODE_AUTO_COMPACT_WINDOW"@ && name
                != "CLAUDE_CODE_MAX_CONTEXT_TOKENS"@))) ==> {
                let env = env_or_none(user);
                let after = overlay["env"@]->Object_0;
                after.contains_key(name) == env.contains_key(name) && (env.contains_key(name)
                    ==> after[name] == env[name])
            }
        }),
{
    let user = members_or_none(settings);
    let env = env_or_none(user);
    reveal_strlit("env");
    reveal_strlit("apiKeyHelper");
    assert("env"@.len() != "apiKeyHelper"@.len());
    let overlay = overlay_of(launch, settings, conflicts);
    assert(overlay["env"@] == JsonView::Object(overlay_env(launch, env, conflicts)));
    let bare = without_members(env, decided_names());
    lemma_without_members(env, decided_names(), name);
    lemma_with_blanks(bare, launch.removals, name);
    if !decided_names().contains(name) {
        lemma_decided(name);
    }
    let plain = overlay_env(LaunchView { window: None, ..launch }, env, conflicts);
    lemma_without_members(plain, conflicts, name);
}

proof fn lemma_decided(name: Seq<char>)
    requires
        !decided_names().contains(name),
    ensures
        name != "ANTHROPIC_BASE_URL"@,
        name != "ANTHROPIC_DEFAULT_OPUS_MODEL"@,
        name != "ANTHROPIC_DEFAULT_SONNET_MODEL"@,
        name != "ANTHROPIC_DEFAULT_HAIKU_MODEL"@,
{
    assert(decided_names()[2] == "ANTHROPIC_BASE_URL"@);
    assert(decided_names()[5] == "ANTHROPIC_DEFAULT_OPUS_MODEL"@);
    assert(decided_names()[6] == "ANTHROPIC_DEFAULT_SONNET_MODEL"@);
    assert(decided_names()[7] == "ANTHROPIC_DEFAULT_HAIKU_MODEL"@);
}

/// No credential, header or provider switch of the user's settings reaches a launch: such a
/// variable is absent from the private settings or set to nothing. The helper is the launch's own.
pub proof fn launches_drop_the_users_credentials(
    launch: LaunchView,
    settings: JsonView,
    conflicts: Seq<Seq<char>>,
    field: AgentAuthRoutingFieldV1,
)
    requires
        field != AgentAuthRoutingFieldV1::AnthropicBaseUrl,
    ensures
        ({
            let overlay = overlay_of(launch, settings, conflicts);
            match field.variable() {
                Some(name) => overlay["env"@] is Object && (
                overlay["env"@]->Object_0.contains_key(name) ==> overlay["env"@]->Object_0[name]
                    == JsonView::Str(Seq::empty())),
                None => overlay["apiKeyHelper"@] == JsonView::Str(
                    joined_with(quoted_words(launch.helper), " "@),
                ),
            }
        }),
{
    let user = members_or_none(settings);
    let env = env_or_none(user);
    reveal_strlit("env");
    reveal_strlit("apiKeyHelper");
    assert("env"@.len() != "apiKeyHelper"@.len());
    let overlay = overlay_of(launch, settings, conflicts);
    assert(overlay["env"@] == JsonView::Object(overlay_env(launch, env, conflicts)));
    if let Some(name) = field.variable() {
        lemma_field_is_decided(field);
        let bare = without_members(env, decided_names());
        lemma_without_members(env, decided_names(), name);
        lemma_with_blanks(bare, launch.removals, name);
        let plain = overlay_env(LaunchView { window: None, ..launch }, env, conflicts);
        lemma_without_members(plain, conflicts, name);
    }
}

proof fn lemma_field_is_decided(field: AgentAuthRoutingFieldV1)
    requires
        field.variable() is Some,
        field != AgentAuthRoutingFieldV1::AnthropicBaseUrl,
    ensures
        decided_names().contains(field.variable()->0),
        field.variable()->0 != "ANTHROPIC_BASE_URL"@,
        field.variable()->0 != "ANTHROPIC_DEFAULT_OPUS_MODEL"@,
        field.variable()->0 != "ANTHROPIC_DEFAULT_SONNET_MODEL"@,
        field.variable()->0 != "ANTHROPIC_DEFAULT_HAIKU_MODEL"@,
        field.variable()->0 != "CLAUDE_CODE_AUTO_COMPACT_WINDOW"@,
        field.variable()->0 != "CLAUDE_CODE_MAX_CONTEXT_TOKENS"@,
{
    assert(decided_names()[0] == "ANTHROPIC_API_KEY"@);
    assert(decided_names()[1] == "ANTHROPIC_AUTH_TOKEN"@);
    assert(decided_names()[3] == "ANTHROPIC_CUSTOM_HEADERS"@);
    assert(decided_names()[4] == "ANTHROPIC_MODEL"@);
    assert(decided_names()[8] == "CLAUDE_CODE_USE_BEDROCK"@);
    assert(decided_names()[9] == "CLAUDE_CODE_USE_FOUNDRY"@);
    assert(decided_names()[10] == "CLAUDE_CODE_USE_VERTEX"@);
    reveal_strlit("ANTHROPIC_API_KEY");
    reveal_strlit("ANTHROPIC_AUTH_TOKEN");
    reveal_strlit("ANTHROPIC_BASE_URL");
    reveal_strlit("ANTHROPIC_CUSTOM_HEADERS");
    reveal_strlit("ANTHROPIC_MODEL");
    reveal_strlit("CLAUDE_CODE_USE_BEDROCK");
    reveal_strlit("CLAUDE_CODE_USE_FOUNDRY");
    reveal_strlit("CLAUDE_CODE_USE_VERTEX");
    reveal_strlit("ANTHROPIC_DEFAULT_OPUS_MODEL");
    reveal_strlit("ANTHROPIC_DEFAULT_SONNET_MODEL");
    reveal_strlit("ANTHROPIC_DEFAULT_HAIKU_MODEL");
    reveal_strlit("CLAUDE_CODE_AUTO_COMPACT_WINDOW");
    reveal_strlit("CLAUDE_CODE_MAX_CONTEXT_TOKENS");
    assert("ANTHROPIC_BASE_URL"@.len() == 18);
    assert("ANTHROPIC_DEFAULT_OPUS_MODEL"@.len() == 28);
    assert("ANTHROPIC_DEFAULT_SONNET_MODEL"@.len() == 30);
    assert("ANTHROPIC_DEFAULT_HAIKU_MODEL"@.len() == 29);
    assert("CLAUDE_CODE_AUTO_COMPACT_WINDOW"@.len() == 31);
    assert("CLAUDE_CODE_MAX_CONTEXT_TOKENS"@.len() == 30);
    assert("ANTHROPIC_API_KEY"@.len() == 17);
    assert("ANTHROPIC_AUTH_TOKEN"@.len() == 20);
    assert("ANTHROPIC_CUSTOM_HEADERS"@.len() == 24);
    assert("ANTHROPIC_MODEL"@.len() == 15);
    assert("CLAUDE_CODE_USE_BEDROCK"@.len() == 23);
    assert("CLAUDE_CODE_USE_FOUNDRY"@.len() == 23);
    assert("CLAUDE_CODE_USE_VERTEX"@.len() == 22);
}

/// A launch always sends its requests to the gateway, whatever the environment and the settings
/// said before.
pub proof fn launches_route_to_the_gateway(
    launch: LaunchView,
    settings: JsonView,
    conflicts: Seq<Seq<char>>,
)
    requires
        launch.window is None || !conflicts.contains("ANTHROPIC_BASE_URL"@),
    ensures
        environment_of(launch, conflicts)["ANTHROPIC_BASE_URL"@] == Some(launch.gateway_base_url),
        ({
            let overlay = overlay_of(launch, settings, conflicts);
            overlay["env"@] is Object && overlay["env"@]->Object_0["ANTHROPIC_BASE_URL"@]
                == JsonView::Str(launch.gateway_base_url)
        }),
{
    let name = "ANTHROPIC_BASE_URL"@;
    let user = members_or_none(settings);
    let env = env_or_none(user);
    reveal_strlit("env");
    reveal_strlit("apiKeyHelper");
    reveal_strlit("ANTHROPIC_BASE_URL");
    reveal_strlit("ANTHROPIC_DEFAULT_OPUS_MODEL");
    reveal_strlit("ANTHROPIC_DEFAULT_SONNET_MODEL");
    reveal_strlit("ANTHROPIC_DEFAULT_HAIKU_MODEL");
    reveal_strlit("CLAUDE_CODE_AUTO_COMPACT_WINDOW");
    reveal_strlit("CLAUDE_CODE_MAX_CONTEXT_TOKENS");
    assert("env"@.len() != "apiKeyHelper"@.len());
    assert(name.len() == 18);
    assert("ANTHROPIC_DEFAULT_OPUS_MODEL"@.len() == 28);
    assert("ANTHROPIC_DEFAULT_SONNET_MODEL"@.len() == 30);
    assert("ANTHROPIC_DEFAULT_HAIKU_MODEL"@.len() == 29);
    assert("CLAUDE_CODE_AUTO_COMPACT_WINDOW"@.len() == 31);
    assert("CLAUDE_CODE_MAX_CONTEXT_TOKENS"@.len() == 30);
    let overlay = overlay_of(launch, settings, conflicts);
    assert(overlay["env"@] == JsonView::Object(overlay_env(launch, env, conflicts)));
    let plain = overlay_env(LaunchView { window: None, ..launch }, env, conflicts);
    lemma_without_members(plain, conflicts, name);
    let variables = environment_of(LaunchView { window: None, ..launch }, conflicts);
    lemma_without_all(variables, conflicts, name);
}

proof fn lemma_without_all(variables: Variables, names: Seq<Seq<char>>, name: Seq<char>)
    ensures
        !names.contains(name) ==> without_all(variables, names)[name] == variables[name],
    decreases names.len(),
{
    if names.len() > 0 {
        let rest = names.drop_last();
        lemma_without_all(variables, rest, name);
        if !names.contains(name) {
            assert(names[names.len() - 1] != name);
            assert(!rest.contains(name)) by {
                if rest.contains(name) {
                    let k = choose|k: int| 0 <= k < rest.len() && rest[k] == name;
                    assert(names[k] == name);
                }
            }
        }
    }
}

} // verus!
