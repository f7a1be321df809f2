//! What discovery makes of what was observed, told by the observations alone.

use vstd::prelude::*;
use crate::agents::claude_main::{
    hidden_by, is_listed, main_claude_observation, main_config, project_beside, resolved_on,
    source_at, told_config, with_entries, with_marker_entry, with_text_entry,
};
use crate::agents::claude_observation::{has_secret_conflict, holds_auth, observed_view};
use crate::agents::claude_config::configured_marker;
use crate::agents::claude_settings::{ObservedClaudeSettings, ObservedView};
use crate::agents::discovery::{
    effective_at, effective_config_of, effective_settings_have_the_lowest_rank, evidence_view,
    fault_at, first_fault, is_agent_id, observations_view, resolve_agent_observation, same_place,
    select_effective, AgentDiscoveryOutcomeV1, AgentKindV1, AgentProfileFacts,
    AgentScanObservationV1, CapabilityReason, ConfigLayerV1, ConfigObservationV1, ObservationView,
};
use crate::agents::claude_files::settings_ref;
use crate::digest::is_digest_text;
use crate::json::{has_nul, JsonView};
use crate::text::{in_order, ordered_lists_hold_the_same, views_of};

verus! {

/// Whether a setting of an observation counts: none of its path is of a nearer layer, and none
/// before it of its own.
pub open spec fn counts(config: Seq<ConfigObservationV1>, kind: AgentKindV1, at: int) -> bool {
    0 <= at < config.len() && (forall|i: int|
        0 <= i < config.len() && (#[trigger] config[i]).path@ == config[at].path@
            ==> config[at].layer.rank_for(kind) <= config[i].layer.rank_for(kind) && (i < at
            ==> config[at].layer.rank_for(kind) < config[i].layer.rank_for(kind)))
}

proof fn lemma_counts(config: Seq<ConfigObservationV1>, path: Seq<char>, kind: AgentKindV1)
    ensures
        match effective_at(observations_view(config), path, kind) {
            Some(at) => counts(config, kind, at) && config[at].path@ == path,
            None => forall|i: int| 0 <= i < config.len() ==> (#[trigger] config[i]).path@ != path,
        },
{
    let all = observations_view(config);
    assert forall|i: int| 0 <= i < config.len() implies all[i] == (#[trigger] config[i])@ by {}
    lemma_effective_is_there(all, path, kind);
    match effective_at(all, path, kind) {
        Some(at) => {
            assert forall|i: int|
                0 <= i < config.len() && (#[trigger] config[i]).path@
                    == config[at].path@ implies config[at].layer.rank_for(kind)
                <= config[i].layer.rank_for(kind) && (i < at ==> config[at].layer.rank_for(kind)
                < config[i].layer.rank_for(kind)) by {
                effective_settings_have_the_lowest_rank(all, path, kind, i);
            }
        },
        None => {
            assert forall|i: int| 0 <= i < config.len() implies (#[trigger] config[i]).path@
                != path by {
                if config[i].path@ == path {
                    effective_settings_have_the_lowest_rank(all, path, kind, i);
                }
            }
        },
    }
}

proof fn lemma_effective_is_there(config: Seq<ObservationView>, path: Seq<char>, kind: AgentKindV1)
    ensures
        effective_at(config, path, kind) matches Some(at) ==> 0 <= at < config.len()
            && config[at].path == path,
    decreases config.len(),
{
    if config.len() > 0 {
        lemma_effective_is_there(config.drop_last(), path, kind);
    }
}

/// A path is decided by the nearest layer that sets it.
pub proof fn the_nearest_layer_decides(
    config: &Vec<ConfigObservationV1>,
    path: &str,
    kind: AgentKindV1,
    r: Option<usize>,
)
    requires
        call_ensures(select_effective, (config, path, kind), r),
    ensures
        match r {
            Some(at) => counts(config@, kind, at as int) && config@[at as int].path@ == path@,
            None => forall|i: int| 0 <= i < config@.len() ==> (#[trigger] config@[i]).path@ != path@,
        },
{
    lemma_counts(config@, path@, kind);
}

/// Whether an observation is free of faults: each setting names its source by a digest, and no owned
/// setting holds a NUL or is said otherwise in its own layer.
pub open spec fn is_sound(config: Seq<ConfigObservationV1>, owned: Seq<Seq<char>>) -> bool {
    &&& forall|i: int| 0 <= i < config.len() ==> is_digest_text((#[trigger] config[i]).source_digest@)
    &&& forall|i: int|
        0 <= i < config.len() && owned.contains((#[trigger] config[i]).path@) ==> !has_nul(
            config[i].value@,
        )
    &&& forall|i: int, j: int|
        0 <= i < j < config.len() && owned.contains((#[trigger] config[i]).path@) && (
        #[trigger] config[j]).path@ == config[i].path@ && config[j].layer == config[i].layer
            ==> config[j].value@ == config[i].value@
}

proof fn lemma_sound(config: Seq<ConfigObservationV1>, owned: Seq<Seq<char>>)
    ensures
        first_fault(observations_view(config), config.len() as int, owned) is None <==> is_sound(
            config,
            owned,
        ),
{
    let all = observations_view(config);
    let n = config.len() as int;
    assert forall|i: int| 0 <= i < config.len() implies all[i] == (#[trigger] config[i])@ by {}
    lemma_faultless(all, n, owned);
    if first_fault(all, n, owned) is None {
        assert forall|i: int| 0 <= i < config.len() implies is_digest_text(
            (#[trigger] config[i]).source_digest@,
        ) && (owned.contains(config[i].path@) ==> !has_nul(config[i].value@)) by {
            assert(fault_at(all, i, owned) is None);
        }
        assert forall|i: int, j: int|
            0 <= i < j < config.len() && owned.contains((#[trigger] config[i]).path@) && (
            #[trigger] config[j]).path@ == config[i].path@ && config[j].layer
                == config[i].layer implies config[j].value@ == config[i].value@ by {
            assert(fault_at(all, j, owned) is None);
            assert(same_place(all[i], all[j]));
        }
    }
    if is_sound(config, owned) {
        assert forall|i: int| 0 <= i < n implies #[trigger] fault_at(all, i, owned) is None by {
            assert(all[i] == config[i]@);
            assert forall|j: int|
                0 <= j < i && same_place(#[trigger] all[j], all[i]) && owned.contains(
                    all[i].path,
                ) implies all[j].value == all[i].value by {
                assert(all[j] == config[j]@);
                assert(owned.contains(config[j].path@));
                assert(config[i].path@ == config[j].path@);
            }
        }
        lemma_no_fault(all, n, owned);
    }
}

proof fn lemma_faultless(config: Seq<ObservationView>, n: int, owned: Seq<Seq<char>>)
    requires
        0 <= n <= config.len(),
    ensures
        first_fault(config, n, owned) is None ==> forall|i: int|
            0 <= i < n ==> #[trigger] fault_at(config, i, owned) is None,
    decreases n,
{
    if n > 0 {
        lemma_faultless(config, n - 1, owned);
    }
}

proof fn lemma_no_fault(config: Seq<ObservationView>, n: int, owned: Seq<Seq<char>>)
    requires
        0 <= n <= config.len(),
        forall|i: int| 0 <= i < n ==> #[trigger] fault_at(config, i, owned) is None,
    ensures
        first_fault(config, n, owned) is None,
    decreases n,
{
    if n > 0 {
        lemma_no_fault(config, n - 1, owned);
        assert(fault_at(config, n - 1, owned) is None);
    }
}

/// An agent is supported exactly where its observation is of the known schema and names it, one
/// valid profile applies, and what was observed is sound. Otherwise it is reported, with the
/// reason.
pub proof fn sound_observations_are_supported(
    observation: AgentScanObservationV1,
    profiles: &Vec<AgentProfileFacts>,
    r: AgentDiscoveryOutcomeV1,
)
    requires
        call_ensures(resolve_agent_observation, (observation, profiles), r),
    ensures
        r is Supported <==> {
            &&& observation.schema@ == "hiroute.agent-scan-observation/v1"@
            &&& is_agent_id(observation.agent_id@)
            &&& profiles@.len() == 1 && profiles@[0].is_valid
            &&& is_sound(observation.config@, views_of(profiles@[0].owned_paths@))
        },
        r matches AgentDiscoveryOutcomeV1::ReportOnly { reason, .. } ==> {
            &&& reason is UnknownObservationSchema <==> observation.schema@
                != "hiroute.agent-scan-observation/v1"@
            &&& reason is UnknownProfile ==> profiles@.len() == 0
            &&& reason is AmbiguousProfile ==> profiles@.len() > 1 || (profiles@.len() == 1
                && !profiles@[0].is_valid)
            &&& reason is InvalidObservation || reason is ConflictingEffectiveConfig || reason
                is UnknownObservationSchema || reason is UnknownProfile || reason
                is AmbiguousProfile
        },
        r matches AgentDiscoveryOutcomeV1::ReportOnly { agent_id, kind, version, .. } ==> agent_id@
            == observation.agent_id@ && kind == observation.kind && version@
            == observation.version@,
        r matches AgentDiscoveryOutcomeV1::Supported { agent_id, kind, version, .. } ==> agent_id@
            == observation.agent_id@ && kind == observation.kind && version@
            == observation.version@,
{
    if profiles@.len() > 0 {
        lemma_sound(observation.config@, views_of(profiles@[0].owned_paths@));
        lemma_fault_kinds(
            observations_view(observation.config@),
            observation.config@.len() as int,
            views_of(profiles@[0].owned_paths@),
        );
    }
}

proof fn lemma_fault_kinds(config: Seq<ObservationView>, n: int, owned: Seq<Seq<char>>)
    ensures
        first_fault(config, n, owned) matches Some(reason) ==> reason is InvalidObservation
            || reason is ConflictingEffectiveConfig,
    decreases n,
{
    if n > 0 {
        lemma_fault_kinds(config, n - 1, owned);
    }
}

/// Settings of one layer that contradict each other are told as a conflict where that is the first
/// thing wrong; a setting without a source, or with a NUL, is an invalid observation.
pub proof fn the_first_fault_is_told(
    observation: AgentScanObservationV1,
    profiles: &Vec<AgentProfileFacts>,
    r: AgentDiscoveryOutcomeV1,
    at: int,
)
    requires
        call_ensures(resolve_agent_observation, (observation, profiles), r),
        observation.schema@ == "hiroute.agent-scan-observation/v1"@,
        is_agent_id(observation.agent_id@),
        profiles@.len() == 1 && profiles@[0].is_valid,
        0 <= at < observation.config@.len(),
        is_sound(observation.config@.take(at), views_of(profiles@[0].owned_paths@)),
        !is_sound(observation.config@.take(at + 1), views_of(profiles@[0].owned_paths@)),
    ensures
        r matches AgentDiscoveryOutcomeV1::ReportOnly { reason, .. } && (reason
            is ConflictingEffectiveConfig <==> is_digest_text(
            observation.config@[at].source_digest@,
        ) && !(views_of(profiles@[0].owned_paths@).contains(observation.config@[at].path@)
            && has_nul(observation.config@[at].value@))) && (reason is InvalidObservation
            || reason is ConflictingEffectiveConfig),
{
    let owned = views_of(profiles@[0].owned_paths@);
    let all = observations_view(observation.config@);
    let n = all.len() as int;
    let before = observation.config@.take(at);
    let upto = observation.config@.take(at + 1);
    lemma_sound(before, owned);
    lemma_sound(upto, owned);
    assert(observations_view(before) =~= all.take(at));
    assert(observations_view(upto) =~= all.take(at + 1));
    lemma_prefix(all, at, at, owned);
    lemma_prefix(all, at + 1, at + 1, owned);
    lemma_first_stays(all, at + 1, n, owned);
    assert(all[at] == observation.config@[at]@);
}

proof fn lemma_prefix(config: Seq<ObservationView>, k: int, n: int, owned: Seq<Seq<char>>)
    requires
        0 <= n <= k <= config.len(),
    ensures
        first_fault(config.take(k), n, owned) == first_fault(config, n, owned),
    decreases n,
{
    if n > 0 {
        lemma_prefix(config, k, n - 1, owned);
        let short = config.take(k);
        assert(short[n - 1] == config[n - 1]);
        assert((exists|j: int|
            0 <= j < n - 1 && same_place(#[trigger] short[j], short[n - 1]) && short[j].value
                != short[n - 1].value) == (exists|j: int|
            0 <= j < n - 1 && same_place(#[trigger] config[j], config[n - 1]) && config[j].value
                != config[n - 1].value)) by {
            assert forall|j: int| 0 <= j < n - 1 implies #[trigger] short[j] == config[j] by {}
            if exists|j: int|
                0 <= j < n - 1 && same_place(#[trigger] config[j], config[n - 1]) && config[j].value
                    != config[n - 1].value {
                let j = choose|j: int|
                    0 <= j < n - 1 && same_place(#[trigger] config[j], config[n - 1])
                        && config[j].value != config[n - 1].value;
                assert(same_place(short[j], short[n - 1]));
            }
        }
    }
}

proof fn lemma_first_stays(config: Seq<ObservationView>, k: int, n: int, owned: Seq<Seq<char>>)
    requires
        0 <= k <= n <= config.len(),
        first_fault(config, k, owned) is Some,
    ensures
        first_fault(config, n, owned) == first_fault(config, k, owned),
    decreases n,
{
    if k < n {
        lemma_first_stays(config, k, n - 1, owned);
    }
}

/// A supported agent is told its effective settings: of each owned path that is set anywhere the
/// one that counts, as it was observed, and nothing else. Nothing is proven by that alone.
pub proof fn supported_agents_are_told_what_counts(
    observation: AgentScanObservationV1,
    profiles: &Vec<AgentProfileFacts>,
    r: AgentDiscoveryOutcomeV1,
    at: int,
    k: int,
)
    requires
        call_ensures(resolve_agent_observation, (observation, profiles), r),
        r is Supported,
    ensures
        ({
            let owned = views_of(profiles@[0].owned_paths@);
            let told = observations_view(r->Supported_effective_config@);
            let config = observation.config@;
            &&& r->Supported_capability_evidence@.len() == 0
            &&& 0 <= at < config.len() && owned.contains(config[at].path@) && counts(
                config,
                observation.kind,
                at,
            ) ==> told.contains(config[at]@)
            &&& 0 <= k < told.len() ==> owned.contains(told[k].path) && exists|i: int|
                counts(config, observation.kind, i) && told[k] == (#[trigger] config[i])@
        }),
{
    let owned = views_of(profiles@[0].owned_paths@);
    let config = observation.config@;
    let all = observations_view(config);
    let kind = observation.kind;
    lemma_told(config, owned, kind, at, k);
}

proof fn lemma_told(
    config: Seq<ConfigObservationV1>,
    owned: Seq<Seq<char>>,
    kind: AgentKindV1,
    at: int,
    k: int,
)
    ensures
        ({
            let told = effective_config_of(observations_view(config), owned, kind);
            &&& 0 <= at < config.len() && owned.contains(config[at].path@) && counts(
                config,
                kind,
                at,
            ) ==> told.contains(config[at]@)
            &&& 0 <= k < told.len() ==> owned.contains(told[k].path) && exists|i: int|
                counts(config, kind, i) && told[k] == (#[trigger] config[i])@
        }),
{
    let all = observations_view(config);
    let order = in_order(owned);
    let keep = |path: Seq<char>| effective_at(all, path, kind) is Some;
    let kept = order.filter(keep);
    let told = effective_config_of(all, owned, kind);
    ordered_lists_hold_the_same(owned);
    if 0 <= at < config.len() && owned.contains(config[at].path@) && counts(config, kind, at) {
        let path = config[at].path@;
        lemma_counts(config, path, kind);
        let e = effective_at(all, path, kind)->0;
        assert(config[e].path@ == config[at].path@);
        assert(e == at);
        assert(order.contains(path));
        let x = choose|x: int| 0 <= x < order.len() && order[x] == path;
        assert(keep(order[x]));
        order.lemma_filter_contains(keep, x);
        let y = choose|y: int| 0 <= y < kept.len() && kept[y] == path;
        assert(told[y] == config[at]@);
    }
    if 0 <= k < told.len() {
        let path = kept[k];
        assert(kept.contains(path));
        order.lemma_filter_contains_rev(keep, path);
        order.lemma_filter_pred(keep, k);
        lemma_counts(config, path, kind);
        let e = effective_at(all, path, kind)->0;
        assert(told[k] == config[e]@);
    }
}

/// The place of the source of a local project file.
pub open spec fn local_of(observations: Seq<ObservedView>, file: Seq<char>) -> int {
    source_at(observations, settings_ref(file, ConfigLayerV1::Project))->0
}

/// Whether the listed file at a place is a local one that hides settings of a source: the source is
/// the project file beside it, which is listed too, and both were observed.
pub open spec fn hides(
    observations: Seq<ObservedView>,
    files: Seq<Seq<char>>,
    k: int,
    i: int,
) -> bool {
    &&& 0 <= k < files.len()
    &&& project_beside(files[k]) matches Some(project) && is_listed(files, project) && source_at(
        observations,
        settings_ref(project, ConfigLayerV1::Project),
    ) == Some(i)
    &&& source_at(observations, settings_ref(files[k], ConfigLayerV1::Project)) is Some
}

proof fn lemma_refs(observations: Seq<ObservedView>, other: Seq<ObservedView>, reference: Seq<char>)
    requires
        observations.len() == other.len(),
        forall|i: int|
            0 <= i < other.len() ==> (#[trigger] other[i]).source_ref == observations[i].source_ref,
    ensures
        source_at(observations, reference) == source_at(other, reference),
        source_at(observations, reference) matches Some(at) ==> 0 <= at < observations.len(),
    decreases observations.len(),
{
    if observations.len() > 0 {
        assert forall|i: int| 0 <= i < other.len() - 1 implies (
        #[trigger] other.drop_last()[i]).source_ref == observations.drop_last()[i].source_ref by {
            assert(other[i].source_ref == observations[i].source_ref);
        }
        lemma_refs(observations.drop_last(), other.drop_last(), reference);
        assert(other[other.len() - 1].source_ref == observations[other.len() - 1].source_ref);
    }
}

proof fn lemma_resolved(observations: Seq<ObservedView>, files: Seq<Seq<char>>, n: int)
    requires
        0 <= n <= files.len(),
    ensures
        resolved_on(observations, files, n).len() == observations.len(),
        forall|i: int|
            0 <= i < observations.len() ==> (#[trigger] resolved_on(
                observations,
                files,
                n,
            )[i]).source_ref == observations[i].source_ref,
    decreases n,
{
    if n > 0 {
        lemma_resolved(observations, files, n - 1);
        if let Some(project) = project_beside(files[n - 1]) {
            let before = resolved_on(observations, files, n - 1);
            lemma_refs(before, before, settings_ref(project, ConfigLayerV1::Project));
        }
    }
}

/// A local project file hides what it sets from the project file beside it: each variable of
/// routing, each variable whose presence is told, and the helper.
pub proof fn local_files_hide_what_they_set(
    observations: Seq<ObservedView>,
    files: Seq<Seq<char>>,
    n: int,
    k: int,
    i: int,
)
    requires
        0 <= k < n <= files.len(),
        hides(observations, files, k, i),
    ensures
        0 <= i < observations.len(),
        ({
            let own = observations[local_of(observations, files[k])].settings.env;
            let after = resolved_on(observations, files, n)[i].settings.env;
            &&& own.base_url is Some ==> after.base_url is None
            &&& own.model is Some ==> after.model is None
            &&& own.default_opus_model is Some ==> after.default_opus_model is None
            &&& own.default_sonnet_model is Some ==> after.default_sonnet_model is None
            &&& own.default_haiku_model is Some ==> after.default_haiku_model is None
            &&& own.small_fast_model is Some ==> after.small_fast_model is None
            &&& forall|name: Seq<char>| own.present.contains(name) ==> !(
            #[trigger] after.present.contains(name))
            &&& observations[local_of(observations, files[k])].settings.helper ==> !resolved_on(
                observations,
                files,
                n,
            )[i].settings.helper
        }),
    decreases n,
{
    let before = resolved_on(observations, files, n - 1);
    let after = resolved_on(observations, files, n);
    lemma_resolved(observations, files, n - 1);
    lemma_refs(observations, observations, settings_ref(files[k], ConfigLayerV1::Project));
    let project = project_beside(files[k])->0;
    lemma_refs(observations, observations, settings_ref(project, ConfigLayerV1::Project));
    let last = files[n - 1];
    if let Some(beside) = project_beside(last) {
        lemma_refs(observations, before, settings_ref(beside, ConfigLayerV1::Project));
        lemma_refs(observations, observations, settings_ref(last, ConfigLayerV1::Project));
    }
    let own = observations[local_of(observations, files[k])].settings.env;
    if k < n - 1 {
        local_files_hide_what_they_set(observations, files, n - 1, k, i);
        if after[i] != before[i] {
            let from = local_of(observations, last);
            lemma_hidden_present(before[i], observations[from]);
        }
    } else {
        lemma_hidden_present(before[i], observations[local_of(observations, files[k])]);
    }
}

proof fn lemma_hidden_present(project: ObservedView, local: ObservedView)
    ensures
        forall|name: Seq<char>| #[trigger]
            hidden_by(project.settings, local.settings).env.present.contains(name)
                <==> project.settings.env.present.contains(name)
                && !local.settings.env.present.contains(name),
{
    let all = project.settings.env.present;
    let keep = |name: Seq<char>| !local.settings.env.present.contains(name);
    let kept = all.filter(keep);
    assert forall|name: Seq<char>| #[trigger] kept.contains(name) <==> all.contains(name)
        && !local.settings.env.present.contains(name) by {
        if kept.contains(name) {
            all.lemma_filter_contains_rev(keep, name);
            let k = choose|k: int| 0 <= k < kept.len() && kept[k] == name;
            all.lemma_filter_pred(keep, k);
        }
        if all.contains(name) && !local.settings.env.present.contains(name) {
            let k = choose|k: int| 0 <= k < all.len() && all[k] == name;
            assert(keep(all[k]));
            all.lemma_filter_contains(keep, k);
        }
    }
}

/// Nothing else is hidden: what a source no longer says is said by a local file that hides from it.
pub proof fn only_local_files_hide(
    observations: Seq<ObservedView>,
    files: Seq<Seq<char>>,
    n: int,
    i: int,
    name: Seq<char>,
)
    requires
        0 <= n <= files.len(),
        0 <= i < observations.len(),
    ensures
        ({
            let before = observations[i].settings.env;
            let after = resolved_on(observations, files, n)[i].settings.env;
            &&& before.base_url == after.base_url || (after.base_url is None && exists|k: int| #[trigger] hides(observations, files, k, i) && observations[local_of(observations, files[k])].settings.env.base_url is Some)
            &&& before.model == after.model || (after.model is None && exists|k: int| #[trigger] hides(observations, files, k, i) && observations[local_of(observations, files[k])].settings.env.model is Some)
            &&& before.default_opus_model == after.default_opus_model || (after.default_opus_model is None && exists|k: int| #[trigger] hides(observations, files, k, i) && observations[local_of(observations, files[k])].settings.env.default_opus_model is Some)
            &&& before.default_sonnet_model == after.default_sonnet_model || (after.default_sonnet_model is None && exists|k: int| #[trigger] hides(observations, files, k, i) && observations[local_of(observations, files[k])].settings.env.default_sonnet_model is Some)
            &&& before.default_haiku_model == after.default_haiku_model || (after.default_haiku_model is None && exists|k: int| #[trigger] hides(observations, files, k, i) && observations[local_of(observations, files[k])].settings.env.default_haiku_model is Some)
            &&& before.small_fast_model == after.small_fast_model || (after.small_fast_model is None && exists|k: int| #[trigger] hides(observations, files, k, i) && observations[local_of(observations, files[k])].settings.env.small_fast_model is Some)
            &&& before.present.contains(name) ==> after.present.contains(name) || exists|k: int|
                #[trigger] hides(observations, files, k, i) && observations[local_of(
                    observations,
                    files[k],
                )].settings.env.present.contains(name)
            &&& observations[i].settings.helper ==> resolved_on(
                observations,
                files,
                n,
            )[i].settings.helper || exists|k: int| #[trigger]
                hides(observations, files, k, i) && observations[local_of(
                    observations,
                    files[k],
                )].settings.helper
        }),
    decreases n,
{
    if n > 0 {
        only_local_files_hide(observations, files, n - 1, i, name);
        let before = resolved_on(observations, files, n - 1);
        let after = resolved_on(observations, files, n);
        lemma_resolved(observations, files, n - 1);
        let last = files[n - 1];
        if let Some(beside) = project_beside(last) {
            lemma_refs(observations, before, settings_ref(beside, ConfigLayerV1::Project));
            lemma_refs(observations, observations, settings_ref(last, ConfigLayerV1::Project));
            if after[i] != before[i] {
                assert(hides(observations, files, n - 1, i));
                lemma_hidden_present(before[i], observations[local_of(observations, last)]);
            }
        }
    }
}

/// A setting as it is told of a source.
pub open spec fn told(observed: ObservedView, path: Seq<char>, value: JsonView) -> ObservationView {
    ObservationView { path, layer: observed.layer, value, source_digest: observed.digest }
}

proof fn lemma_paths()
    ensures
        "env.ANTHROPIC_BASE_URL"@ != "env.ANTHROPIC_MODEL"@,
        "env.ANTHROPIC_BASE_URL"@ != "env.ANTHROPIC_DEFAULT_OPUS_MODEL"@,
        "env.ANTHROPIC_BASE_URL"@ != "env.ANTHROPIC_DEFAULT_SONNET_MODEL"@,
        "env.ANTHROPIC_BASE_URL"@ != "env.ANTHROPIC_DEFAULT_HAIKU_MODEL"@,
        "env.ANTHROPIC_BASE_URL"@ != "env.ANTHROPIC_SMALL_FAST_MODEL"@,
        "env.ANTHROPIC_BASE_URL"@ != "apiKeyHelper"@,
        "env.ANTHROPIC_BASE_URL"@ != "hiroute.auth_environment"@,
        "env.ANTHROPIC_MODEL"@ != "env.ANTHROPIC_DEFAULT_OPUS_MODEL"@,
        "env.ANTHROPIC_MODEL"@ != "env.ANTHROPIC_DEFAULT_SONNET_MODEL"@,
        "env.ANTHROPIC_MODEL"@ != "env.ANTHROPIC_DEFAULT_HAIKU_MODEL"@,
        "env.ANTHROPIC_MODEL"@ != "env.ANTHROPIC_SMALL_FAST_MODEL"@,
        "env.ANTHROPIC_MODEL"@ != "apiKeyHelper"@,
        "env.ANTHROPIC_MODEL"@ != "hiroute.auth_environment"@,
        "env.ANTHROPIC_DEFAULT_OPUS_MODEL"@ != "env.ANTHROPIC_DEFAULT_SONNET_MODEL"@,
        "env.ANTHROPIC_DEFAULT_OPUS_MODEL"@ != "env.ANTHROPIC_DEFAULT_HAIKU_MODEL"@,
        "env.ANTHROPIC_DEFAULT_OPUS_MODEL"@ != "env.ANTHROPIC_SMALL_FAST_MODEL"@,
        "env.ANTHROPIC_DEFAULT_OPUS_MODEL"@ != "apiKeyHelper"@,
        "env.ANTHROPIC_DEFAULT_OPUS_MODEL"@ != "hiroute.auth_environment"@,
        "env.ANTHROPIC_DEFAULT_SONNET_MODEL"@ != "env.ANTHROPIC_DEFAULT_HAIKU_MODEL"@,
        "env.ANTHROPIC_DEFAULT_SONNET_MODEL"@ != "env.ANTHROPIC_SMALL_FAST_MODEL"@,
        "env.ANTHROPIC_DEFAULT_SONNET_MODEL"@ != "apiKeyHelper"@,
        "env.ANTHROPIC_DEFAULT_SONNET_MODEL"@ != "hiroute.auth_environment"@,
        "env.ANTHROPIC_DEFAULT_HAIKU_MODEL"@ != "env.ANTHROPIC_SMALL_FAST_MODEL"@,
        "env.ANTHROPIC_DEFAULT_HAIKU_MODEL"@ != "apiKeyHelper"@,
        "env.ANTHROPIC_DEFAULT_HAIKU_MODEL"@ != "hiroute.auth_environment"@,
        "env.ANTHROPIC_SMALL_FAST_MODEL"@ != "apiKeyHelper"@,
        "env.ANTHROPIC_SMALL_FAST_MODEL"@ != "hiroute.auth_environment"@,
        "apiKeyHelper"@ != "hiroute.auth_environment"@,
{
    reveal_strlit("env.ANTHROPIC_BASE_URL");
    reveal_strlit("env.ANTHROPIC_MODEL");
    reveal_strlit("env.ANTHROPIC_DEFAULT_OPUS_MODEL");
    reveal_strlit("env.ANTHROPIC_DEFAULT_SONNET_MODEL");
    reveal_strlit("env.ANTHROPIC_DEFAULT_HAIKU_MODEL");
    reveal_strlit("env.ANTHROPIC_SMALL_FAST_MODEL");
    reveal_strlit("apiKeyHelper");
    reveal_strlit("hiroute.auth_environment");
    assert("env.ANTHROPIC_BASE_URL"@.len() == 22);
    assert("env.ANTHROPIC_MODEL"@.len() == 19);
    assert("env.ANTHROPIC_DEFAULT_OPUS_MODEL"@.len() == 32);
    assert("env.ANTHROPIC_DEFAULT_SONNET_MODEL"@.len() == 34);
    assert("env.ANTHROPIC_DEFAULT_HAIKU_MODEL"@.len() == 33);
    assert("env.ANTHROPIC_SMALL_FAST_MODEL"@.len() == 30);
    assert("apiKeyHelper"@.len() == 12);
    assert("hiroute.auth_environment"@.len() == 24);
}

proof fn lemma_added(config: Seq<ObservationView>, observed: ObservedView, entry: ObservationView)
    ensures
        with_entries(config, observed).contains(entry) <==> config.contains(entry) || with_entries(
            Seq::empty(),
            observed,
        ).contains(entry),
{
    lemma_own_entries(config, observed, entry);
    lemma_own_entries(Seq::empty(), observed, entry);
}

proof fn lemma_from_source(values: Seq<ObservedView>, entry: ObservationView)
    ensures
        main_config(values).contains(entry) <==> exists|i: int|
            0 <= i < values.len() && with_entries(Seq::empty(), #[trigger] values[i]).contains(entry),
    decreases values.len(),
{
    if values.len() > 0 {
        let init = values.drop_last();
        lemma_from_source(init, entry);
        lemma_added(main_config(init), values.last(), entry);
        assert(values[values.len() - 1] == values.last());
        assert forall|i: int| 0 <= i < init.len() implies init[i] == #[trigger] values[i] by {}
        if exists|i: int|
            0 <= i < init.len() && with_entries(Seq::empty(), #[trigger] init[i]).contains(entry) {
            let i = choose|i: int|
                0 <= i < init.len() && with_entries(Seq::empty(), #[trigger] init[i]).contains(
                    entry,
                );
            assert(with_entries(Seq::empty(), values[i]).contains(entry));
        }
        if exists|i: int|
            0 <= i < values.len() && with_entries(Seq::empty(), #[trigger] values[i]).contains(
                entry,
            ) {
            let i = choose|i: int|
                0 <= i < values.len() && with_entries(Seq::empty(), #[trigger] values[i]).contains(
                    entry,
                );
            if i < init.len() {
                assert(with_entries(Seq::empty(), init[i]).contains(entry));
            }
        }
    }
}

/// What an observation tells of a source: each variable of routing under its own path, with the
/// layer and the digest of the source, and of a helper and of credentials that they are there.
pub proof fn sources_are_told_field_by_field(values: Seq<ObservedView>, at: int)
    requires
        0 <= at < values.len(),
    ensures
        ({
            let observed = values[at];
            &&& observed.settings.env.base_url matches Some(text) ==> main_config(values).contains(told(observed, "env.ANTHROPIC_BASE_URL"@, JsonView::Str(text)))
            &&& observed.settings.env.model matches Some(text) ==> main_config(values).contains(told(observed, "env.ANTHROPIC_MODEL"@, JsonView::Str(text)))
            &&& observed.settings.env.default_opus_model matches Some(text) ==> main_config(values).contains(told(observed, "env.ANTHROPIC_DEFAULT_OPUS_MODEL"@, JsonView::Str(text)))
            &&& observed.settings.env.default_sonnet_model matches Some(text) ==> main_config(values).contains(told(observed, "env.ANTHROPIC_DEFAULT_SONNET_MODEL"@, JsonView::Str(text)))
            &&& observed.settings.env.default_haiku_model matches Some(text) ==> main_config(values).contains(told(observed, "env.ANTHROPIC_DEFAULT_HAIKU_MODEL"@, JsonView::Str(text)))
            &&& observed.settings.env.small_fast_model matches Some(text) ==> main_config(values).contains(told(observed, "env.ANTHROPIC_SMALL_FAST_MODEL"@, JsonView::Str(text)))
            &&& observed.settings.helper ==> main_config(values).contains(
                told(observed, "apiKeyHelper"@, configured_marker()),
            )
            &&& observed.settings.env.present.contains("ANTHROPIC_AUTH_TOKEN"@)
                || observed.settings.env.present.contains("ANTHROPIC_API_KEY"@)
                ==> main_config(values).contains(
                told(observed, "hiroute.auth_environment"@, configured_marker()),
            )
        }),
{
    let observed = values[at];
    let env = observed.settings.env;
    if let Some(text) = env.base_url {
        let entry = told(observed, "env.ANTHROPIC_BASE_URL"@, JsonView::Str(text));
        lemma_text_entry(Seq::empty(), observed, "env.ANTHROPIC_BASE_URL"@, env.base_url, entry);
        lemma_is_told(values, at, entry);
    }
    if let Some(text) = env.model {
        let entry = told(observed, "env.ANTHROPIC_MODEL"@, JsonView::Str(text));
        lemma_text_entry(Seq::empty(), observed, "env.ANTHROPIC_MODEL"@, env.model, entry);
        lemma_is_told(values, at, entry);
    }
    if let Some(text) = env.default_opus_model {
        let entry = told(observed, "env.ANTHROPIC_DEFAULT_OPUS_MODEL"@, JsonView::Str(text));
        lemma_text_entry(Seq::empty(), observed, "env.ANTHROPIC_DEFAULT_OPUS_MODEL"@, env.default_opus_model, entry);
        lemma_is_told(values, at, entry);
    }
    if let Some(text) = env.default_sonnet_model {
        let entry = told(observed, "env.ANTHROPIC_DEFAULT_SONNET_MODEL"@, JsonView::Str(text));
        lemma_text_entry(Seq::empty(), observed, "env.ANTHROPIC_DEFAULT_SONNET_MODEL"@, env.default_sonnet_model, entry);
        lemma_is_told(values, at, entry);
    }
    if let Some(text) = env.default_haiku_model {
        let entry = told(observed, "env.ANTHROPIC_DEFAULT_HAIKU_MODEL"@, JsonView::Str(text));
        lemma_text_entry(Seq::empty(), observed, "env.ANTHROPIC_DEFAULT_HAIKU_MODEL"@, env.default_haiku_model, entry);
        lemma_is_told(values, at, entry);
    }
    if let Some(text) = env.small_fast_model {
        let entry = told(observed, "env.ANTHROPIC_SMALL_FAST_MODEL"@, JsonView::Str(text));
        lemma_text_entry(Seq::empty(), observed, "env.ANTHROPIC_SMALL_FAST_MODEL"@, env.small_fast_model, entry);
        lemma_is_told(values, at, entry);
    }
    let mark = told(observed, "apiKeyHelper"@, configured_marker());
    lemma_mark_entry(Seq::empty(), observed, "apiKeyHelper"@, observed.settings.helper, mark);
    if observed.settings.helper {
        lemma_is_told(values, at, mark);
    }
    let auth = told(observed, "hiroute.auth_environment"@, configured_marker());
    lemma_mark_entry(
        Seq::empty(),
        observed,
        "hiroute.auth_environment"@,
        holds_auth(env.present),
        auth,
    );
    if holds_auth(env.present) {
        lemma_is_told(values, at, auth);
    }
}

proof fn lemma_is_told(values: Seq<ObservedView>, at: int, entry: ObservationView)
    requires
        0 <= at < values.len(),
        is_own_entry(values[at], entry),
    ensures
        main_config(values).contains(entry),
{
    lemma_own_entries(Seq::empty(), values[at], entry);
    lemma_from_source(values, entry);
    assert(with_entries(Seq::empty(), values[at]).contains(entry));
}

pub open spec fn as_entry(observed: ObservedView, path: Seq<char>, text: Option<Seq<char>>) -> Seq<
    ObservationView,
> {
    match text {
        Some(text) => seq![told(observed, path, JsonView::Str(text))],
        None => Seq::empty(),
    }
}

pub open spec fn as_mark(observed: ObservedView, path: Seq<char>, there: bool) -> Seq<
    ObservationView,
> {
    if there {
        seq![told(observed, path, configured_marker())]
    } else {
        Seq::empty()
    }
}

/// Whether an entry is among those of a source.
pub open spec fn is_own_entry(observed: ObservedView, entry: ObservationView) -> bool {
    let env = observed.settings.env;
    ||| as_entry(observed, "env.ANTHROPIC_BASE_URL"@, env.base_url).contains(entry)
    ||| as_entry(observed, "env.ANTHROPIC_MODEL"@, env.model).contains(entry)
    ||| as_entry(observed, "env.ANTHROPIC_DEFAULT_OPUS_MODEL"@, env.default_opus_model).contains(
        entry,
    )
    ||| as_entry(
        observed,
        "env.ANTHROPIC_DEFAULT_SONNET_MODEL"@,
        env.default_sonnet_model,
    ).contains(entry)
    ||| as_entry(observed, "env.ANTHROPIC_DEFAULT_HAIKU_MODEL"@, env.default_haiku_model).contains(
        entry,
    )
    ||| as_entry(observed, "env.ANTHROPIC_SMALL_FAST_MODEL"@, env.small_fast_model).contains(entry)
    ||| as_mark(observed, "apiKeyHelper"@, observed.settings.helper).contains(entry)
    ||| as_mark(observed, "hiroute.auth_environment"@, holds_auth(env.present)).contains(entry)
}

proof fn lemma_text_entry(
    config: Seq<ObservationView>,
    observed: ObservedView,
    path: Seq<char>,
    text: Option<Seq<char>>,
    entry: ObservationView,
)
    ensures
        with_text_entry(config, observed, path, text).contains(entry) <==> config.contains(entry)
            || as_entry(observed, path, text).contains(entry),
        text matches Some(text) ==> as_entry(observed, path, Some(text)).contains(
            told(observed, path, JsonView::Str(text)),
        ),
{
    let own = as_entry(observed, path, text);
    assert(with_text_entry(config, observed, path, text) =~= config + own);
    lemma_in_either(config, own, entry);
    if let Some(value) = text {
        assert(own[0] == told(observed, path, JsonView::Str(value)));
    }
}

proof fn lemma_mark_entry(
    config: Seq<ObservationView>,
    observed: ObservedView,
    path: Seq<char>,
    there: bool,
    entry: ObservationView,
)
    ensures
        with_marker_entry(config, observed, path, there).contains(entry) <==> config.contains(entry)
            || as_mark(observed, path, there).contains(entry),
        there ==> as_mark(observed, path, true).contains(told(observed, path, configured_marker())),
{
    let own = as_mark(observed, path, there);
    assert(with_marker_entry(config, observed, path, there) =~= config + own);
    lemma_in_either(config, own, entry);
    if there {
        assert(own[0] == told(observed, path, configured_marker()));
    }
}

proof fn lemma_own_entries(
    config: Seq<ObservationView>,
    observed: ObservedView,
    entry: ObservationView,
)
    ensures
        with_entries(config, observed).contains(entry) <==> config.contains(entry) || is_own_entry(
            observed,
            entry,
        ),
{
    let env = observed.settings.env;
    let a = with_text_entry(config, observed, "env.ANTHROPIC_BASE_URL"@, env.base_url);
    let b = with_text_entry(a, observed, "env.ANTHROPIC_MODEL"@, env.model);
    let c = with_text_entry(
        b,
        observed,
        "env.ANTHROPIC_DEFAULT_OPUS_MODEL"@,
        env.default_opus_model,
    );
    let d = with_text_entry(
        c,
        observed,
        "env.ANTHROPIC_DEFAULT_SONNET_MODEL"@,
        env.default_sonnet_model,
    );
    let e = with_text_entry(
        d,
        observed,
        "env.ANTHROPIC_DEFAULT_HAIKU_MODEL"@,
        env.default_haiku_model,
    );
    let f = with_text_entry(e, observed, "env.ANTHROPIC_SMALL_FAST_MODEL"@, env.small_fast_model);
    let g = with_marker_entry(f, observed, "apiKeyHelper"@, observed.settings.helper);
    lemma_text_entry(config, observed, "env.ANTHROPIC_BASE_URL"@, env.base_url, entry);
    lemma_text_entry(a, observed, "env.ANTHROPIC_MODEL"@, env.model, entry);
    lemma_text_entry(
        b,
        observed,
        "env.ANTHROPIC_DEFAULT_OPUS_MODEL"@,
        env.default_opus_model,
        entry,
    );
    lemma_text_entry(
        c,
        observed,
        "env.ANTHROPIC_DEFAULT_SONNET_MODEL"@,
        env.default_sonnet_model,
        entry,
    );
    lemma_text_entry(
        d,
        observed,
        "env.ANTHROPIC_DEFAULT_HAIKU_MODEL"@,
        env.default_haiku_model,
        entry,
    );
    lemma_text_entry(e, observed, "env.ANTHROPIC_SMALL_FAST_MODEL"@, env.small_fast_model, entry);
    lemma_mark_entry(f, observed, "apiKeyHelper"@, observed.settings.helper, entry);
    lemma_mark_entry(
        g,
        observed,
        "hiroute.auth_environment"@,
        holds_auth(env.present),
        entry,
    );
    assert(with_entries(config, observed) == with_marker_entry(
        g,
        observed,
        "hiroute.auth_environment"@,
        holds_auth(env.present),
    ));
}

proof fn lemma_in_either(
    a: Seq<ObservationView>,
    b: Seq<ObservationView>,
    entry: ObservationView,
)
    ensures
        (a + b).contains(entry) <==> a.contains(entry) || b.contains(entry),
{
    let all = a + b;
    if all.contains(entry) {
        let k = choose|k: int| 0 <= k < all.len() && all[k] == entry;
        if k < a.len() {
            assert(a[k] == entry);
        } else {
            assert(b[k - a.len()] == entry);
        }
    }
    if a.contains(entry) {
        let k = choose|k: int| 0 <= k < a.len() && a[k] == entry;
        assert(all[k] == entry);
    }
    if b.contains(entry) {
        let k = choose|k: int| 0 <= k < b.len() && b[k] == entry;
        assert(all[a.len() + k] == entry);
    }
}

/// Nothing else is told: each entry is of a source, under the path of a variable that the source
/// sets and with its text, or of a helper or of credentials that are there.
pub proof fn only_what_sources_say_is_told(values: Seq<ObservedView>, entry: ObservationView)
    requires
        main_config(values).contains(entry),
    ensures
        exists|i: int| 0 <= i < values.len() && is_told_of(#[trigger] values[i], entry),
{
    lemma_from_source(values, entry);
    let i = choose|i: int|
        0 <= i < values.len() && with_entries(Seq::empty(), #[trigger] values[i]).contains(entry);
    lemma_own_entries(Seq::empty(), values[i], entry);
    lemma_own_is_told(values[i], entry);
}

proof fn lemma_one_entry(
    observed: ObservedView,
    path: Seq<char>,
    text: Option<Seq<char>>,
    there: bool,
    entry: ObservationView,
)
    ensures
        as_entry(observed, path, text).contains(entry) ==> text is Some && entry == told(
            observed,
            path,
            JsonView::Str(text->0),
        ),
        as_mark(observed, path, there).contains(entry) ==> there && entry == told(
            observed,
            path,
            configured_marker(),
        ),
{
}

proof fn lemma_own_is_told(observed: ObservedView, entry: ObservationView)
    requires
        is_own_entry(observed, entry),
    ensures
        is_told_of(observed, entry),
{
    lemma_paths();
    let env = observed.settings.env;
    lemma_one_entry(observed, "env.ANTHROPIC_BASE_URL"@, env.base_url, false, entry);
    lemma_one_entry(observed, "env.ANTHROPIC_MODEL"@, env.model, false, entry);
    lemma_one_entry(observed, "env.ANTHROPIC_DEFAULT_OPUS_MODEL"@, env.default_opus_model, false, entry);
    lemma_one_entry(observed, "env.ANTHROPIC_DEFAULT_SONNET_MODEL"@, env.default_sonnet_model, false, entry);
    lemma_one_entry(observed, "env.ANTHROPIC_DEFAULT_HAIKU_MODEL"@, env.default_haiku_model, false, entry);
    lemma_one_entry(observed, "env.ANTHROPIC_SMALL_FAST_MODEL"@, env.small_fast_model, false, entry);
    lemma_one_entry(observed, "apiKeyHelper"@, None, observed.settings.helper, entry);
    lemma_one_entry(
        observed,
        "hiroute.auth_environment"@,
        None,
        holds_auth(env.present),
        entry,
    );
}

/// Whether an entry tells something that a source says.
pub open spec fn is_told_of(observed: ObservedView, entry: ObservationView) -> bool {
    &&& entry.layer == observed.layer && entry.source_digest == observed.digest
    &&& entry.path == "env.ANTHROPIC_BASE_URL"@ ==> observed.settings.env.base_url is Some && entry.value == JsonView::Str(observed.settings.env.base_url->0)
    &&& entry.path == "env.ANTHROPIC_MODEL"@ ==> observed.settings.env.model is Some && entry.value == JsonView::Str(observed.settings.env.model->0)
    &&& entry.path == "env.ANTHROPIC_DEFAULT_OPUS_MODEL"@ ==> observed.settings.env.default_opus_model is Some && entry.value == JsonView::Str(observed.settings.env.default_opus_model->0)
    &&& entry.path == "env.ANTHROPIC_DEFAULT_SONNET_MODEL"@ ==> observed.settings.env.default_sonnet_model is Some && entry.value == JsonView::Str(observed.settings.env.default_sonnet_model->0)
    &&& entry.path == "env.ANTHROPIC_DEFAULT_HAIKU_MODEL"@ ==> observed.settings.env.default_haiku_model is Some && entry.value == JsonView::Str(observed.settings.env.default_haiku_model->0)
    &&& entry.path == "env.ANTHROPIC_SMALL_FAST_MODEL"@ ==> observed.settings.env.small_fast_model is Some && entry.value == JsonView::Str(observed.settings.env.small_fast_model->0)
    &&& entry.path == "apiKeyHelper"@ ==> observed.settings.helper && entry.value
        == configured_marker()
    &&& entry.path == "hiroute.auth_environment"@ ==> holds_auth(observed.settings.env.present)
        && entry.value == configured_marker()
    &&& (entry.path == "env.ANTHROPIC_BASE_URL"@ || entry.path == "env.ANTHROPIC_MODEL"@ || entry.path == "env.ANTHROPIC_DEFAULT_OPUS_MODEL"@ || entry.path == "env.ANTHROPIC_DEFAULT_SONNET_MODEL"@ || entry.path == "env.ANTHROPIC_DEFAULT_HAIKU_MODEL"@ || entry.path == "env.ANTHROPIC_SMALL_FAST_MODEL"@ || entry.path == "apiKeyHelper"@ || entry.path == "hiroute.auth_environment"@)
}

/// The main observation of ClaudeCode is told under its own name and kind; where its sources
/// contradict each other no setting is told, and the one piece of evidence says why.
pub proof fn contradicting_sources_tell_nothing(
    version: &str,
    observations: &Vec<ObservedClaudeSettings>,
    profiles: &Vec<AgentProfileFacts>,
    r: (AgentDiscoveryOutcomeV1, bool),
)
    requires
        call_ensures(main_claude_observation, (version, observations, profiles), r),
    ensures
        r.0 matches AgentDiscoveryOutcomeV1::Supported {
            agent_id,
            kind,
            version: v,
            effective_config,
            capability_evidence,
            ..
        } ==> {
            &&& agent_id@ == "agent_claude_default"@ && kind is ClaudeCode && v@ == version@
            &&& r.1 ==> effective_config@.len() == 0 && capability_evidence@.len() == 1
                && capability_evidence@[0].capability is EffectiveConfiguration
                && capability_evidence@[0].state is Unknown && capability_evidence@[0].reason
                == Some(CapabilityReason::HigherPrecedenceConflict)
            &&& !r.1 ==> capability_evidence@.len() == 0
        },
        has_secret_conflict(observed_view(observations@)) ==> r.1,
{
    let values = observed_view(observations@);
    if let AgentDiscoveryOutcomeV1::Supported { effective_config, capability_evidence, .. } = r.0 {
        let told = evidence_view(capability_evidence@);
        assert(told.len() == capability_evidence@.len());
        assert(observations_view(effective_config@).len() == effective_config@.len());
        if r.1 {
            assert(told[0] == capability_evidence@[0]@);
            assert(told_config(values, profiles@) == Seq::<ObservationView>::empty());
            let owned = views_of(profiles@[0].owned_paths@);
            let none = Seq::<ObservationView>::empty();
            let kept = effective_config_of(none, owned, AgentKindV1::ClaudeCode);
            if kept.len() > 0 {
                let keep = |path: Seq<char>|
                    effective_at(none, path, AgentKindV1::ClaudeCode) is Some;
                in_order(owned).lemma_filter_pred(keep, 0);
            }
        }
    }
}

/// The names of the kinds, of their commands and of the layers in documents.
pub proof fn names_in_documents(kind: AgentKindV1, layer: ConfigLayerV1)
    ensures
        kind is Codex ==> kind.wire() == "codex"@,
        kind is ClaudeCode ==> kind.wire() == "claude_code"@,
        layer.wire() == "process"@ <==> layer is Process,
        layer.wire() == "launch"@ <==> layer is Launch,
        layer.wire() == "project"@ <==> layer is Project,
        layer.wire() == "user"@ <==> layer is User,
        layer.wire() == "managed"@ <==> layer is Managed,
        layer.label() == "Process"@ <==> layer is Process,
        layer.label() == "Launch"@ <==> layer is Launch,
        layer.label() == "Project"@ <==> layer is Project,
        layer.label() == "User"@ <==> layer is User,
        layer.label() == "Managed"@ <==> layer is Managed,
{
    reveal_strlit("process");
    reveal_strlit("launch");
    reveal_strlit("project");
    reveal_strlit("user");
    reveal_strlit("managed");
    assert("process"@.len() == 7);
    assert("launch"@.len() == 6);
    assert("project"@.len() == 7);
    assert("user"@.len() == 4);
    assert("managed"@.len() == 7);
    assert("process"@[3] != "project"@[3]);
    assert("process"@[0] != "managed"@[0]);
    assert("project"@[0] != "managed"@[0]);
    reveal_strlit("Process");
    reveal_strlit("Launch");
    reveal_strlit("Project");
    reveal_strlit("User");
    reveal_strlit("Managed");
    assert("Process"@.len() == 7);
    assert("Launch"@.len() == 6);
    assert("Project"@.len() == 7);
    assert("User"@.len() == 4);
    assert("Managed"@.len() == 7);
    assert("Process"@[3] != "Project"@[3]);
    assert("Process"@[0] != "Managed"@[0]);
    assert("Project"@[0] != "Managed"@[0]);
}

} // verus!
