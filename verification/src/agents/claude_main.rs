//! The observation of ClaudeCode as an agent: which settings hide which, and what the sources
//! make of the installation.

use vstd::prelude::*;
use crate::agents::claude_config::configured_marker;
use crate::agents::claude_files::{named, own_name, settings_ref, source_ref};
use crate::agents::claude_observation::{
    auth_is_present, copied_option, has_secret_conflict, holds_auth, marker, observed_view, present,
    same_layer_secret_conflict,
};
use crate::agents::claude_settings::{
    copied_texts, maybe_text, pairs_view, ClaudeEnvironmentSubset, ClaudeSettingsSubset,
    EnvironmentView, ObservedClaudeSettings, ObservedView, SettingsView,
};
use crate::agents::discovery::{
    config_json, config_to_json, effective_at, effective_config_of, evidence_view, identity_on,
    observations_view, report_reason_on, resolve_agent_observation, AgentCapability,
    AgentDiscoveryOutcomeV1, AgentKindV1, AgentProfileFacts, AgentReportOnlyReasonV1,
    AgentScanObservationV1, CapabilityEvidence, CapabilityReason, CapabilityState, ConfigLayerV1,
    ConfigObservationV1, EvidenceView, ObservationView, AGENT_SCAN_OBSERVATION_SCHEMA_V1,
};
use crate::agents::executable::{join_path, joined};
use crate::digest::CanonicalDigest;
use crate::json::{
    array_view, canonical_digest, canonical_digest_of, lemma_array_view, object_view, put_member,
    Json, JsonView,
};
use crate::paths::{has_name, is_same_path, name_of, parent_of, parent_path, same_path};
use crate::text::{in_order, same, views_of};

verus! {

/// The project file beside a local project file.
pub open spec fn project_beside(local: Seq<char>) -> Option<Seq<char>> {
    if name_of(local) != Some("settings.local.json"@) {
        None
    } else {
        match parent_of(local) {
            Some(parent) => Some(joined(parent, "settings.json"@)),
            None => None,
        }
    }
}

fn find_project_beside(local: &str) -> (r: Option<String>)
    ensures
        maybe_text(r) == project_beside(local@),
{
    if !has_name(local, "settings.local.json") {
        return None;
    }
    match parent_path(local) {
        Some(parent) => {
            proof {
                reveal_strlit("settings.json");
            }
            Some(join_path(parent.as_str(), "settings.json"))
        },
        None => None,
    }
}

/// Whether a path is one of those listed.
pub open spec fn is_listed(files: Seq<Seq<char>>, path: Seq<char>) -> bool {
    exists|i: int| 0 <= i < files.len() && same_path(#[trigger] files[i], path)
}

fn listed_path(files: &Vec<String>, path: &str) -> (r: bool)
    ensures
        r == is_listed(views_of(files@), path@),
{
    let ghost all = views_of(files@);
    let mut i: usize = 0;
    while i < files.len()
        invariant
            i <= files.len(),
            all == views_of(files@),
            forall|j: int| 0 <= j < i ==> !same_path(#[trigger] all[j], path@),
        decreases files.len() - i,
    {
        assert(all[i as int] == files@[i as int]@);
        if is_same_path(files[i].as_str(), path) {
            return true;
        }
        i += 1;
    }
    false
}

/// The first source with a reference.
pub open spec fn source_at(values: Seq<ObservedView>, reference: Seq<char>) -> Option<int>
    decreases values.len(),
{
    if values.len() == 0 {
        None
    } else {
        match source_at(values.drop_last(), reference) {
            Some(i) => Some(i),
            None => if values.last().source_ref == reference {
                Some(values.len() - 1)
            } else {
                None
            },
        }
    }
}

proof fn lemma_source_at(values: Seq<ObservedView>, reference: Seq<char>, k: int)
    requires
        0 <= k <= values.len(),
        source_at(values.take(k), reference) is Some,
    ensures
        source_at(values, reference) == source_at(values.take(k), reference),
    decreases values.len() - k,
{
    if k < values.len() {
        assert(values.take(k + 1).drop_last() == values.take(k));
        lemma_source_at(values, reference, k + 1);
    } else {
        assert(values.take(k) == values);
    }
}

fn find_source(values: &Vec<ObservedClaudeSettings>, reference: &str) -> (r: Option<usize>)
    ensures
        match r {
            Some(i) => i < values@.len() && source_at(observed_view(values@), reference@) == Some(
                i as int,
            ),
            None => source_at(observed_view(values@), reference@) is None,
        },
{
    let ghost all = observed_view(values@);
    let mut i: usize = 0;
    assert(all.take(0) == Seq::<ObservedView>::empty());
    while i < values.len()
        invariant
            i <= values.len(),
            all == observed_view(values@),
            source_at(all.take(i as int), reference@) is None,
        decreases values.len() - i,
    {
        proof {
            assert(all[i as int] == values@[i as int]@);
            assert(all.take(i + 1).drop_last() == all.take(i as int));
            assert(all.take(i + 1).last() == all[i as int]);
        }
        if same(values[i].source_ref.as_str(), reference) {
            proof {
                lemma_source_at(all, reference@, i + 1);
            }
            return Some(i);
        }
        i += 1;
    }
    assert(all.take(i as int) == all);
    None
}

pub open spec fn unless_set(value: Option<Seq<char>>, other: Option<Seq<char>>) -> Option<
    Seq<char>,
> {
    if other is Some {
        None
    } else {
        value
    }
}

/// What is left of a project file's settings beside a local file's. The selected model and the
/// context window are left as they are.
pub open spec fn hidden_by(project: SettingsView, local: SettingsView) -> SettingsView {
    SettingsView {
        env: EnvironmentView {
            base_url: unless_set(project.env.base_url, local.env.base_url),
            model: unless_set(project.env.model, local.env.model),
            default_opus_model: unless_set(
                project.env.default_opus_model,
                local.env.default_opus_model,
            ),
            default_sonnet_model: unless_set(
                project.env.default_sonnet_model,
                local.env.default_sonnet_model,
            ),
            default_haiku_model: unless_set(
                project.env.default_haiku_model,
                local.env.default_haiku_model,
            ),
            small_fast_model: unless_set(project.env.small_fast_model, local.env.small_fast_model),
            present: project.env.present.filter(
                |name: Seq<char>| !local.env.present.contains(name),
            ),
            ..project.env
        },
        helper: project.helper && !local.helper,
        ..project
    }
}

fn copied_unless(value: &Option<String>, other: &Option<String>) -> (r: Option<String>)
    ensures
        maybe_text(r) == unless_set(maybe_text(*value), maybe_text(*other)),
{
    if other.is_some() {
        None
    } else {
        copied_option(value)
    }
}

fn without_names(names: &Vec<String>, hidden: &Vec<String>) -> (r: Vec<String>)
    ensures
        views_of(r@) == views_of(names@).filter(
            |name: Seq<char>| !views_of(hidden@).contains(name),
        ),
{
    let ghost all = views_of(names@);
    let ghost keep = |name: Seq<char>| !views_of(hidden@).contains(name);
    let mut out: Vec<String> = Vec::new();
    let mut i: usize = 0;
    proof {
        reveal(Seq::filter);
        assert(all.take(0).filter(keep) =~= Seq::<Seq<char>>::empty());
        assert(views_of(out@) =~= Seq::<Seq<char>>::empty());
    }
    while i < names.len()
        invariant
            i <= names.len(),
            all == views_of(names@),
            keep == (|name: Seq<char>| !views_of(hidden@).contains(name)),
            views_of(out@) == all.take(i as int).filter(keep),
        decreases names.len() - i,
    {
        let ghost before = views_of(out@);
        proof {
            reveal(Seq::filter);
            assert(all.take(i + 1).drop_last() == all.take(i as int));
            assert(all.take(i + 1).last() == names@[i as int]@);
        }
        if !present(hidden, names[i].as_str()) {
            out.push(names[i].clone());
            assert(views_of(out@) =~= before.push(names@[i as int]@));
        }
        i += 1;
    }
    assert(all.take(i as int) == all);
    out
}

fn copied_pairs(pairs: &Vec<(String, String)>) -> (r: Vec<(String, String)>)
    ensures
        pairs_view(r@) == pairs_view(pairs@),
{
    let ghost all = pairs_view(pairs@);
    let mut out: Vec<(String, String)> = Vec::new();
    let mut i: usize = 0;
    assert(pairs_view(out@) =~= all.take(0));
    while i < pairs.len()
        invariant
            i <= pairs.len(),
            all == pairs_view(pairs@),
            pairs_view(out@) == all.take(i as int),
        decreases pairs.len() - i,
    {
        let ghost before = pairs_view(out@);
        out.push((pairs[i].0.clone(), pairs[i].1.clone()));
        proof {
            assert(pairs_view(out@) =~= before.push(all[i as int]));
            assert(all.take(i + 1) =~= all.take(i as int).push(all[i as int]));
        }
        i += 1;
    }
    assert(all.take(i as int) == all);
    out
}

fn settings_hidden_by(project: &ClaudeSettingsSubset, local: &ClaudeSettingsSubset) -> (r:
    ClaudeSettingsSubset)
    ensures
        r@ == hidden_by(project@, local@),
{
    let env = &project.env;
    let hiding = &local.env;
    ClaudeSettingsSubset {
        model: copied_option(&project.model),
        env: ClaudeEnvironmentSubset {
            context_environment: copied_pairs(&env.context_environment),
            base_url: copied_unless(&env.base_url, &hiding.base_url),
            model: copied_unless(&env.model, &hiding.model),
            default_opus_model: copied_unless(&env.default_opus_model, &hiding.default_opus_model),
            default_sonnet_model: copied_unless(
                &env.default_sonnet_model,
                &hiding.default_sonnet_model,
            ),
            default_haiku_model: copied_unless(
                &env.default_haiku_model,
                &hiding.default_haiku_model,
            ),
            small_fast_model: copied_unless(&env.small_fast_model, &hiding.small_fast_model),
            present_environment_fields: without_names(
                &env.present_environment_fields,
                &hiding.present_environment_fields,
            ),
        },
        api_key_helper_present: project.api_key_helper_present && !local.api_key_helper_present,
    }
}

fn copied_settings(settings: &ClaudeSettingsSubset) -> (r: ClaudeSettingsSubset)
    ensures
        r@ == settings@,
{
    let env = &settings.env;
    ClaudeSettingsSubset {
        model: copied_option(&settings.model),
        env: ClaudeEnvironmentSubset {
            context_environment: copied_pairs(&env.context_environment),
            base_url: copied_option(&env.base_url),
            model: copied_option(&env.model),
            default_opus_model: copied_option(&env.default_opus_model),
            default_sonnet_model: copied_option(&env.default_sonnet_model),
            default_haiku_model: copied_option(&env.default_haiku_model),
            small_fast_model: copied_option(&env.small_fast_model),
            present_environment_fields: copied_texts(&env.present_environment_fields),
        },
        api_key_helper_present: settings.api_key_helper_present,
    }
}

fn copied_observed(observed: &ObservedClaudeSettings) -> (r: ObservedClaudeSettings)
    ensures
        r@ == observed@,
{
    ObservedClaudeSettings {
        layer: observed.layer,
        revision: observed.revision,
        digest: observed.digest.copied(),
        source_ref: observed.source_ref.clone(),
        settings: copied_settings(&observed.settings),
    }
}

/// Applies one local file. It hides fields only of the project file beside it, and only where both
/// are listed and observed.
pub open spec fn after_local(
    observations: Seq<ObservedView>,
    effective: Seq<ObservedView>,
    files: Seq<Seq<char>>,
    file: Seq<char>,
) -> Seq<ObservedView> {
    match project_beside(file) {
        Some(project) => if is_listed(files, project) {
            let from = source_at(observations, settings_ref(file, ConfigLayerV1::Project));
            let to = source_at(effective, settings_ref(project, ConfigLayerV1::Project));
            if from is Some && to is Some {
                effective.update(
                    to->0,
                    ObservedView {
                        settings: hidden_by(
                            effective[to->0].settings,
                            observations[from->0].settings,
                        ),
                        ..effective[to->0]
                    },
                )
            } else {
                effective
            }
        } else {
            effective
        },
        None => effective,
    }
}

/// The sources after each listed file was applied in turn.
pub open spec fn resolved_on(
    observations: Seq<ObservedView>,
    files: Seq<Seq<char>>,
    n: int,
) -> Seq<ObservedView>
    decreases n,
{
    if n <= 0 {
        observations
    } else {
        after_local(observations, resolved_on(observations, files, n - 1), files, files[n - 1])
    }
}

pub fn resolve_project_local_fields(
    files: &Vec<String>,
    observations: &Vec<ObservedClaudeSettings>,
) -> (r: Vec<ObservedClaudeSettings>)
    ensures
        observed_view(r@) == resolved_on(
            observed_view(observations@),
            views_of(files@),
            files@.len() as int,
        ),
{
    let ghost all = observed_view(observations@);
    let ghost listed = views_of(files@);
    let mut effective: Vec<ObservedClaudeSettings> = Vec::new();
    let mut k: usize = 0;
    assert(observed_view(effective@) =~= all.take(0));
    while k < observations.len()
        invariant
            k <= observations.len(),
            all == observed_view(observations@),
            observed_view(effective@) == all.take(k as int),
        decreases observations.len() - k,
    {
        let ghost before = observed_view(effective@);
        effective.push(copied_observed(&observations[k]));
        proof {
            assert(observed_view(effective@) =~= before.push(all[k as int]));
            assert(all.take(k + 1) =~= all.take(k as int).push(all[k as int]));
        }
        k += 1;
    }
    assert(all.take(k as int) == all);
    let mut i: usize = 0;
    while i < files.len()
        invariant
            i <= files.len(),
            all == observed_view(observations@),
            listed == views_of(files@),
            observed_view(effective@) == resolved_on(all, listed, i as int),
        decreases files.len() - i,
    {
        let file = files[i].as_str();
        let ghost before = observed_view(effective@);
        assert(listed[i as int] == file@);
        match find_project_beside(file) {
            Some(project) => {
                if listed_path(files, project.as_str()) {
                    let from = find_source(
                        observations,
                        source_ref(file, ConfigLayerV1::Project).as_str(),
                    );
                    let to = find_source(
                        &effective,
                        source_ref(project.as_str(), ConfigLayerV1::Project).as_str(),
                    );
                    match (from, to) {
                        (Some(from), Some(to)) => {
                            let target = &effective[to];
                            assert(before[to as int] == target@);
                            assert(all[from as int] == observations@[from as int]@);
                            let hidden = ObservedClaudeSettings {
                                layer: target.layer,
                                revision: target.revision,
                                digest: target.digest.copied(),
                                source_ref: target.source_ref.clone(),
                                settings: settings_hidden_by(
                                    &target.settings,
                                    &observations[from].settings,
                                ),
                            };
                            let ghost made = hidden@;
                            effective.set(to, hidden);
                            assert(observed_view(effective@) =~= before.update(to as int, made));
                        },
                        _ => {},
                    }
                }
            },
            None => {},
        }
        i += 1;
    }
    effective
}

/// An entry of an observation.
pub open spec fn entry(observed: ObservedView, path: Seq<char>, value: JsonView) -> ObservationView {
    ObservationView { path, layer: observed.layer, value, source_digest: observed.digest }
}

pub open spec fn with_text_entry(
    config: Seq<ObservationView>,
    observed: ObservedView,
    path: Seq<char>,
    text: Option<Seq<char>>,
) -> Seq<ObservationView> {
    match text {
        Some(text) => config.push(entry(observed, path, JsonView::Str(text))),
        None => config,
    }
}

pub open spec fn with_marker_entry(
    config: Seq<ObservationView>,
    observed: ObservedView,
    path: Seq<char>,
    there: bool,
) -> Seq<ObservationView> {
    if there {
        config.push(entry(observed, path, configured_marker()))
    } else {
        config
    }
}

/// Adds what a source says to the observation. Of a helper and of credentials it is told only that
/// they are there.
pub open spec fn with_entries(config: Seq<ObservationView>, observed: ObservedView) -> Seq<
    ObservationView,
> {
    let env = observed.settings.env;
    let config = with_text_entry(config, observed, "env.ANTHROPIC_BASE_URL"@, env.base_url);
    let config = with_text_entry(config, observed, "env.ANTHROPIC_MODEL"@, env.model);
    let config = with_text_entry(
        config,
        observed,
        "env.ANTHROPIC_DEFAULT_OPUS_MODEL"@,
        env.default_opus_model,
    );
    let config = with_text_entry(
        config,
        observed,
        "env.ANTHROPIC_DEFAULT_SONNET_MODEL"@,
        env.default_sonnet_model,
    );
    let config = with_text_entry(
        config,
        observed,
        "env.ANTHROPIC_DEFAULT_HAIKU_MODEL"@,
        env.default_haiku_model,
    );
    let config = with_text_entry(
        config,
        observed,
        "env.ANTHROPIC_SMALL_FAST_MODEL"@,
        env.small_fast_model,
    );
    let config = with_marker_entry(config, observed, "apiKeyHelper"@, observed.settings.helper);
    with_marker_entry(config, observed, "hiroute.auth_environment"@, holds_auth(env.present))
}

pub open spec fn main_config(values: Seq<ObservedView>) -> Seq<ObservationView>
    decreases values.len(),
{
    if values.len() == 0 {
        Seq::empty()
    } else {
        with_entries(main_config(values.drop_last()), values.last())
    }
}

fn push_text(
    config: &mut Vec<ConfigObservationV1>,
    observed: &ObservedClaudeSettings,
    path: &str,
    text: &Option<String>,
)
    ensures
        observations_view(final(config)@) == with_text_entry(
            observations_view(old(config)@),
            observed@,
            path@,
            maybe_text(*text),
        ),
{
    let ghost before = observations_view(config@);
    match text {
        Some(text) => {
            config.push(
                ConfigObservationV1 {
                    path: path.to_owned(),
                    layer: observed.layer,
                    value: Json::Str(text.clone()),
                    source_digest: observed.digest.as_str().to_owned(),
                },
            );
            assert(observations_view(config@) =~= before.push(
                entry(observed@, path@, JsonView::Str(text@)),
            ));
        },
        None => {},
    }
}

fn push_marker(
    config: &mut Vec<ConfigObservationV1>,
    observed: &ObservedClaudeSettings,
    path: &str,
    there: bool,
)
    ensures
        observations_view(final(config)@) == with_marker_entry(
            observations_view(old(config)@),
            observed@,
            path@,
            there,
        ),
{
    let ghost before = observations_view(config@);
    if there {
        config.push(
            ConfigObservationV1 {
                path: path.to_owned(),
                layer: observed.layer,
                value: marker(),
                source_digest: observed.digest.as_str().to_owned(),
            },
        );
        assert(observations_view(config@) =~= before.push(
            entry(observed@, path@, configured_marker()),
        ));
    }
}

fn push_entries(config: &mut Vec<ConfigObservationV1>, observed: &ObservedClaudeSettings)
    ensures
        observations_view(final(config)@) == with_entries(
            observations_view(old(config)@),
            observed@,
        ),
{
    let env = &observed.settings.env;
    push_text(config, observed, "env.ANTHROPIC_BASE_URL", &env.base_url);
    push_text(config, observed, "env.ANTHROPIC_MODEL", &env.model);
    push_text(config, observed, "env.ANTHROPIC_DEFAULT_OPUS_MODEL", &env.default_opus_model);
    push_text(config, observed, "env.ANTHROPIC_DEFAULT_SONNET_MODEL", &env.default_sonnet_model);
    push_text(config, observed, "env.ANTHROPIC_DEFAULT_HAIKU_MODEL", &env.default_haiku_model);
    push_text(config, observed, "env.ANTHROPIC_SMALL_FAST_MODEL", &env.small_fast_model);
    push_marker(config, observed, "apiKeyHelper", observed.settings.api_key_helper_present);
    push_marker(
        config,
        observed,
        "hiroute.auth_environment",
        auth_is_present(&env.present_environment_fields),
    );
}

fn collect_config(values: &Vec<ObservedClaudeSettings>) -> (r: Vec<ConfigObservationV1>)
    ensures
        observations_view(r@) == main_config(observed_view(values@)),
{
    let ghost all = observed_view(values@);
    let mut config: Vec<ConfigObservationV1> = Vec::new();
    let mut i: usize = 0;
    proof {
        assert(all.take(0) == Seq::<ObservedView>::empty());
        assert(observations_view(config@) =~= Seq::<ObservationView>::empty());
    }
    while i < values.len()
        invariant
            i <= values.len(),
            all == observed_view(values@),
            observations_view(config@) == main_config(all.take(i as int)),
        decreases values.len() - i,
    {
        push_entries(&mut config, &values[i]);
        proof {
            assert(all.take(i + 1).drop_last() == all.take(i as int));
            assert(all.take(i + 1).last() == values@[i as int]@);
        }
        i += 1;
    }
    assert(all.take(i as int) == all);
    config
}

/// What an identity holds of a source: where it is, what it says, and when it was written.
pub open spec fn input_json(observed: ObservedView) -> JsonView {
    JsonView::Array(
        seq![
            JsonView::Str(observed.source_ref),
            JsonView::Str(observed.digest),
            JsonView::Int(observed.revision as int),
        ],
    )
}

pub open spec fn inputs_json(values: Seq<ObservedView>) -> JsonView {
    JsonView::Array(values.map_values(|observed: ObservedView| input_json(observed)))
}

fn collect_inputs(values: &Vec<ObservedClaudeSettings>) -> (r: Json)
    ensures
        r@ == inputs_json(observed_view(values@)),
{
    let ghost all = observed_view(values@);
    let ghost project = |observed: ObservedView| input_json(observed);
    let mut items: Vec<Json> = Vec::new();
    let mut i: usize = 0;
    assert(array_view(items@) =~= all.take(0).map_values(project));
    while i < values.len()
        invariant
            i <= values.len(),
            all == observed_view(values@),
            project == (|observed: ObservedView| input_json(observed)),
            array_view(items@) == all.take(i as int).map_values(project),
        decreases values.len() - i,
    {
        let observed = &values[i];
        let ghost before = items@;
        let mut parts: Vec<Json> = Vec::new();
        parts.push(Json::Str(observed.source_ref.clone()));
        parts.push(Json::Str(observed.digest.as_str().to_owned()));
        parts.push(Json::Pos(observed.revision));
        proof {
            lemma_array_view(parts@);
            assert(JsonView::Array(array_view(parts@)) == input_json(observed@)) by {
                assert(array_view(parts@) =~= seq![
                    JsonView::Str(observed.source_ref@),
                    JsonView::Str(observed.digest@),
                    JsonView::Int(observed.revision as int),
                ]);
            }
        }
        items.push(Json::Array(parts));
        proof {
            assert(items@.drop_last() == before);
            assert(items@.last()@ == input_json(observed@));
            assert(all[i as int] == observed@);
            assert(all.take(i + 1).map_values(project) =~= all.take(i as int).map_values(
                project,
            ).push(input_json(all[i as int])));
        }
        i += 1;
    }
    assert(all.take(i as int) == all);
    Json::Array(items)
}

/// The identity of the main observation. It binds every source, also one that is wholly hidden or
/// empty. The earlier format also binds the version of the executable.
pub open spec fn main_identity(
    version: Seq<char>,
    values: Seq<ObservedView>,
    legacy: bool,
) -> Seq<char> {
    canonical_digest_of(
        if legacy {
            JsonView::Array(
                seq![
                    JsonView::Object(
                        map![
                            "schema"@ => JsonView::Str(AGENT_SCAN_OBSERVATION_SCHEMA_V1@),
                            "agent_id"@ => JsonView::Str("agent_claude_default"@),
                            "kind"@ => JsonView::Str(AgentKindV1::ClaudeCode.wire()),
                            "version"@ => JsonView::Str(version),
                            "config"@ => config_json(main_config(values)),
                        ],
                    ),
                    inputs_json(values),
                ],
            )
        } else {
            JsonView::Array(
                seq![
                    JsonView::Str(AGENT_SCAN_OBSERVATION_SCHEMA_V1@),
                    JsonView::Str("agent_claude_default"@),
                    JsonView::Str(AgentKindV1::ClaudeCode.wire()),
                    config_json(main_config(values)),
                    inputs_json(values),
                ],
            )
        },
    )
}

fn identity_of_main(
    version: &str,
    config: &Vec<ConfigObservationV1>,
    values: &Vec<ObservedClaudeSettings>,
    legacy: bool,
) -> (r: CanonicalDigest)
    requires
        observations_view(config@) == main_config(observed_view(values@)),
    ensures
        r@ == main_identity(version@, observed_view(values@), legacy),
{
    let mut parts: Vec<Json> = Vec::new();
    if legacy {
        let mut members: Vec<(String, Json)> = Vec::new();
        put_member(&mut members, "schema", Json::Str(AGENT_SCAN_OBSERVATION_SCHEMA_V1.to_owned()));
        put_member(&mut members, "agent_id", Json::Str("agent_claude_default".to_owned()));
        put_member(
            &mut members,
            "kind",
            Json::Str(AgentKindV1::ClaudeCode.wire_text().to_owned()),
        );
        put_member(&mut members, "version", Json::Str(version.to_owned()));
        put_member(&mut members, "config", config_to_json(config));
        let ghost object = object_view(members@);
        parts.push(Json::Object(members));
        parts.push(collect_inputs(values));
        proof {
            lemma_array_view(parts@);
            assert(array_view(parts@) =~= seq![
                JsonView::Object(object),
                inputs_json(observed_view(values@)),
            ]);
        }
    } else {
        parts.push(Json::Str(AGENT_SCAN_OBSERVATION_SCHEMA_V1.to_owned()));
        parts.push(Json::Str("agent_claude_default".to_owned()));
        parts.push(Json::Str(AgentKindV1::ClaudeCode.wire_text().to_owned()));
        parts.push(config_to_json(config));
        parts.push(collect_inputs(values));
        proof {
            lemma_array_view(parts@);
            assert(array_view(parts@) =~= seq![
                JsonView::Str(AGENT_SCAN_OBSERVATION_SCHEMA_V1@),
                JsonView::Str("agent_claude_default"@),
                JsonView::Str(AgentKindV1::ClaudeCode.wire()),
                config_json(main_config(observed_view(values@))),
                inputs_json(observed_view(values@)),
            ]);
        }
    }
    canonical_digest(&Json::Array(parts))
}

/// Why the main observation would only be reported.
pub open spec fn main_reason(values: Seq<ObservedView>, profiles: Seq<AgentProfileFacts>) -> Option<
    AgentReportOnlyReasonV1,
> {
    report_reason_on(
        AGENT_SCAN_OBSERVATION_SCHEMA_V1@,
        "agent_claude_default"@,
        main_config(values),
        profiles,
    )
}

/// Whether the sources contradict each other, so that none of their settings may be told as the
/// effective ones.
pub open spec fn is_ambiguous(values: Seq<ObservedView>, profiles: Seq<AgentProfileFacts>) -> bool {
    has_secret_conflict(values) || main_reason(values, profiles) == Some(
        AgentReportOnlyReasonV1::ConflictingEffectiveConfig,
    )
}

/// The settings that the observation tells: none where the sources contradict each other.
pub open spec fn told_config(values: Seq<ObservedView>, profiles: Seq<AgentProfileFacts>) -> Seq<
    ObservationView,
> {
    if is_ambiguous(values, profiles) {
        Seq::empty()
    } else {
        main_config(values)
    }
}

/// Whether an outcome is that of the main observation.
pub open spec fn is_main_outcome(
    outcome: AgentDiscoveryOutcomeV1,
    version: Seq<char>,
    values: Seq<ObservedView>,
    legacy: bool,
    profiles: Seq<AgentProfileFacts>,
) -> bool {
    let identity = main_identity(version, values, legacy);
    is_claude_outcome(outcome, version, values, profiles, identity, identity)
}

/// The contract under which the layers of the settings are observed.
pub open spec fn layers_contract() -> Seq<char> {
    "hiroute."@ + (own_name() + "-native-layers/v1"@)
}

/// The evidence of an observation: none, but where the sources contradict each other, that the
/// effective settings are not known.
pub open spec fn main_evidence(ambiguous: bool, identity: Seq<char>) -> Seq<EvidenceView> {
    if ambiguous {
        seq![
            EvidenceView {
                capability: AgentCapability::EffectiveConfiguration,
                state: CapabilityState::Unknown,
                reason: Some(CapabilityReason::HigherPrecedenceConflict),
                adapter_contract: layers_contract(),
                observed_at_unix_ms: 1,
                dependency_digest: identity,
            },
        ]
    } else {
        Seq::empty()
    }
}

/// Whether an outcome is that of some sources; `digest` is the identity of an installation, and
/// `sampled` the one that its evidence is bound to.
pub open spec fn is_claude_outcome(
    outcome: AgentDiscoveryOutcomeV1,
    version: Seq<char>,
    values: Seq<ObservedView>,
    profiles: Seq<AgentProfileFacts>,
    digest: Seq<char>,
    sampled: Seq<char>,
) -> bool {
    let config = told_config(values, profiles);
    match report_reason_on(
        AGENT_SCAN_OBSERVATION_SCHEMA_V1@,
        "agent_claude_default"@,
        config,
        profiles,
    ) {
        Some(why) => outcome matches AgentDiscoveryOutcomeV1::ReportOnly {
            agent_id,
            kind,
            version: v,
            reason,
            observation_digest,
        } && agent_id@ == "agent_claude_default"@ && kind == AgentKindV1::ClaudeCode && v@
            == version && reason == why && observation_digest@ == identity_on(
            AGENT_SCAN_OBSERVATION_SCHEMA_V1@,
            "agent_claude_default"@,
            AgentKindV1::ClaudeCode,
            config,
        ),
        None => outcome matches AgentDiscoveryOutcomeV1::Supported {
            agent_id,
            kind,
            version: v,
            effective_config,
            observation_digest,
            capability_evidence,
        } && agent_id@ == "agent_claude_default"@ && kind == AgentKindV1::ClaudeCode && v@
            == version && observations_view(effective_config@) == effective_config_of(
            config,
            views_of(profiles[0].owned_paths@),
            AgentKindV1::ClaudeCode,
        ) && observation_digest@ == digest && evidence_view(capability_evidence@) == main_evidence(
            is_ambiguous(values, profiles),
            sampled,
        ),
    }
}

pub(crate) fn with_digest(outcome: AgentDiscoveryOutcomeV1, digest: CanonicalDigest) -> (r:
    AgentDiscoveryOutcomeV1)
    ensures
        match outcome {
            AgentDiscoveryOutcomeV1::Supported {
                agent_id,
                kind,
                version,
                effective_config,
                observation_digest: _,
                capability_evidence,
            } => r == (AgentDiscoveryOutcomeV1::Supported {
                agent_id,
                kind,
                version,
                effective_config,
                observation_digest: digest,
                capability_evidence,
            }),
            _ => r == outcome,
        },
{
    match outcome {
        AgentDiscoveryOutcomeV1::Supported {
            agent_id,
            kind,
            version,
            effective_config,
            observation_digest: _,
            capability_evidence,
        } => AgentDiscoveryOutcomeV1::Supported {
            agent_id,
            kind,
            version,
            effective_config,
            observation_digest: digest,
            capability_evidence,
        },
        other => other,
    }
}

/// The main observation of ClaudeCode, and whether its sources contradict each other. Where they
/// do, the installation is kept, none of its settings is told, and the identity still binds them
/// all.
pub fn main_claude_observation_with_format(
    version: &str,
    observations: &Vec<ObservedClaudeSettings>,
    legacy: bool,
    profiles: &Vec<AgentProfileFacts>,
) -> (r: (AgentDiscoveryOutcomeV1, bool))
    ensures
        r.1 == is_ambiguous(observed_view(observations@), profiles@),
        is_main_outcome(r.0, version@, observed_view(observations@), legacy, profiles@),
{
    let config = collect_config(observations);
    let digest = identity_of_main(version, &config, observations, legacy);
    let outcome = resolve_agent_observation(
        AgentScanObservationV1 {
            schema: AGENT_SCAN_OBSERVATION_SCHEMA_V1.to_owned(),
            agent_id: "agent_claude_default".to_owned(),
            kind: AgentKindV1::ClaudeCode,
            version: version.to_owned(),
            config,
        },
        profiles,
    );
    let contradicts = match &outcome {
        AgentDiscoveryOutcomeV1::ReportOnly {
            reason: AgentReportOnlyReasonV1::ConflictingEffectiveConfig,
            ..
        } => true,
        _ => false,
    };
    if !(same_layer_secret_conflict(observations) || contradicts) {
        proof {
            lemma_no_evidence(outcome);
        }
        return (with_digest(outcome, digest), false);
    }
    let none: Vec<ConfigObservationV1> = Vec::new();
    assert(observations_view(none@) =~= Seq::<ObservationView>::empty());
    let bare = resolve_agent_observation(
        AgentScanObservationV1 {
            schema: AGENT_SCAN_OBSERVATION_SCHEMA_V1.to_owned(),
            agent_id: "agent_claude_default".to_owned(),
            kind: AgentKindV1::ClaudeCode,
            version: version.to_owned(),
            config: none,
        },
        profiles,
    );
    (with_conflict(with_digest(bare, digest)), true)
}

proof fn lemma_no_evidence(outcome: AgentDiscoveryOutcomeV1)
    ensures
        outcome matches AgentDiscoveryOutcomeV1::Supported { capability_evidence, .. } ==> (
        capability_evidence@.len() == 0 ==> evidence_view(capability_evidence@) == Seq::<
            EvidenceView,
        >::empty()),
{
    if let AgentDiscoveryOutcomeV1::Supported { capability_evidence, .. } = outcome {
        if capability_evidence@.len() == 0 {
            assert(evidence_view(capability_evidence@) =~= Seq::<EvidenceView>::empty());
        }
    }
}

/// Adds to an installation without evidence that its effective settings are not known.
fn with_conflict(outcome: AgentDiscoveryOutcomeV1) -> (r: AgentDiscoveryOutcomeV1)
    requires
        outcome matches AgentDiscoveryOutcomeV1::Supported { capability_evidence, .. }
            ==> capability_evidence@.len() == 0,
    ensures
        match outcome {
            AgentDiscoveryOutcomeV1::Supported {
                agent_id,
                kind,
                version,
                effective_config,
                observation_digest,
                capability_evidence: _,
            } => r matches AgentDiscoveryOutcomeV1::Supported {
                agent_id: a,
                kind: k,
                version: v,
                effective_config: e,
                observation_digest: d,
                capability_evidence,
            } && a == agent_id && k == kind && v == version && e == effective_config && d
                == observation_digest && evidence_view(capability_evidence@) == main_evidence(
                true,
                observation_digest@,
            ),
            _ => r == outcome,
        },
{
    match outcome {
        AgentDiscoveryOutcomeV1::Supported {
            agent_id,
            kind,
            version,
            effective_config,
            observation_digest,
            capability_evidence,
        } => {
            let mut adapter_contract = "hiroute.".to_owned();
            adapter_contract.append(named("-native-layers/v1").as_str());
            let mut capability_evidence = capability_evidence;
            capability_evidence.push(
                CapabilityEvidence {
                    capability: AgentCapability::EffectiveConfiguration,
                    state: CapabilityState::Unknown,
                    reason: Some(CapabilityReason::HigherPrecedenceConflict),
                    adapter_contract,
                    observed_at_unix_ms: 1,
                    dependency_digest: observation_digest.copied(),
                },
            );
            assert(evidence_view(capability_evidence@) =~= main_evidence(
                true,
                observation_digest@,
            ));
            AgentDiscoveryOutcomeV1::Supported {
                agent_id,
                kind,
                version,
                effective_config,
                observation_digest,
                capability_evidence,
            }
        },
        other => other,
    }
}

pub fn main_claude_observation(
    version: &str,
    observations: &Vec<ObservedClaudeSettings>,
    profiles: &Vec<AgentProfileFacts>,
) -> (r: (AgentDiscoveryOutcomeV1, bool))
    ensures
        r.1 == is_ambiguous(observed_view(observations@), profiles@),
        is_main_outcome(r.0, version@, observed_view(observations@), false, profiles@),
{
    main_claude_observation_with_format(version, observations, false, profiles)
}

/// Applying the local files keeps every source with its place, its layer, its revision and its
/// digest, and adds no setting to it.
pub proof fn local_files_only_hide_settings(
    observations: Seq<ObservedView>,
    files: Seq<Seq<char>>,
    n: int,
    i: int,
)
    requires
        0 <= n <= files.len(),
        0 <= i < observations.len(),
    ensures
        resolved_on(observations, files, n).len() == observations.len(),
        ({
            let before = observations[i];
            let after = resolved_on(observations, files, n)[i];
            &&& after.source_ref == before.source_ref
            &&& after.layer == before.layer
            &&& after.revision == before.revision
            &&& after.digest == before.digest
            &&& after.settings.model == before.settings.model
            &&& after.settings.env.context == before.settings.env.context
            &&& after.settings.env.base_url is Some ==> after.settings.env.base_url
                == before.settings.env.base_url
            &&& after.settings.env.model is Some ==> after.settings.env.model
                == before.settings.env.model
            &&& after.settings.helper ==> before.settings.helper
            &&& forall|name: Seq<char>| #[trigger]
                after.settings.env.present.contains(name) ==> before.settings.env.present.contains(
                    name,
                )
        }),
    decreases n,
{
    if n > 0 {
        local_files_only_hide_settings(observations, files, n - 1, i);
        let effective = resolved_on(observations, files, n - 1);
        let after = resolved_on(observations, files, n)[i];
        if let Some(project) = project_beside(files[n - 1]) {
            let from = source_at(observations, settings_ref(files[n - 1], ConfigLayerV1::Project));
            let to = source_at(effective, settings_ref(project, ConfigLayerV1::Project));
            lemma_source_in_bounds(effective, settings_ref(project, ConfigLayerV1::Project));
            if is_listed(files, project) && from is Some && to is Some && to->0 == i {
                let local = observations[from->0].settings;
                let keep = |name: Seq<char>| !local.env.present.contains(name);
                let present = effective[i].settings.env.present;
                assert(after.settings == hidden_by(effective[i].settings, local));
                assert(after.settings.env.present == present.filter(keep));
                assert forall|name: Seq<char>| #[trigger]
                    after.settings.env.present.contains(name) implies present.contains(name) by {
                    present.lemma_filter_contains_rev(keep, name);
                }
            } else {
                assert(after == effective[i]);
            }
        }
    }
}

proof fn lemma_source_in_bounds(values: Seq<ObservedView>, reference: Seq<char>)
    ensures
        source_at(values, reference) matches Some(i) ==> 0 <= i < values.len(),
    decreases values.len(),
{
    if values.len() > 0 {
        lemma_source_in_bounds(values.drop_last(), reference);
    }
}

/// Two sources of one layer with a credential each never show any setting of theirs, and the
/// installation says why.
pub proof fn ambiguous_sources_tell_no_settings(
    outcome: AgentDiscoveryOutcomeV1,
    version: Seq<char>,
    values: Seq<ObservedView>,
    legacy: bool,
    profiles: Seq<AgentProfileFacts>,
)
    requires
        has_secret_conflict(values),
        is_main_outcome(outcome, version, values, legacy, profiles),
    ensures
        outcome matches AgentDiscoveryOutcomeV1::Supported { effective_config, .. }
            ==> effective_config@.len() == 0,
        outcome matches AgentDiscoveryOutcomeV1::Supported { capability_evidence, .. }
            ==> evidence_view(capability_evidence@) == main_evidence(
            true,
            main_identity(version, values, legacy),
        ),
{
    if let AgentDiscoveryOutcomeV1::Supported { effective_config, .. } = outcome {
        let none = Seq::<ObservationView>::empty();
        let owned = views_of(profiles[0].owned_paths@);
        let kind = AgentKindV1::ClaudeCode;
        let keep = |path: Seq<char>| effective_at(none, path, kind) is Some;
        let kept = in_order(owned).filter(keep);
        if kept.len() > 0 {
            in_order(owned).lemma_filter_pred(keep, 0);
            assert(keep(kept[0]));
        }
        assert(effective_config_of(none, owned, kind).len() == kept.len());
        assert(observations_view(effective_config@) == effective_config_of(none, owned, kind));
        assert(observations_view(effective_config@).len() == effective_config@.len());
    }
}

} // verus!
