//! What the settings sources of ClaudeCode say together.
//!
//! The sources are observed one by one. A local project file hides the fields that it sets from
//! the project file beside it; of the other sources the one that counts first decides a field.

use vstd::prelude::*;
use crate::agents::claude_config::{
    configured_marker, context_variable, is_context_variable, Members,
};
use crate::agents::claude_settings::{
    maybe_text, pairs_view, ClaudeSettingsSubset, ObservedClaudeSettings, ObservedView,
    SettingsView,
};
use crate::agents::discovery::{AgentKindV1, ConfigLayerV1};
use crate::agents::filesystem::AgentFilesystemScanError;
use crate::json::{object_view, put_member, Json, JsonView};
use crate::text::{same, views_of};

verus! {

pub open spec fn observed_view(observations: Seq<ObservedClaudeSettings>) -> Seq<ObservedView> {
    observations.map_values(|observed: ObservedClaudeSettings| observed@)
}

/// A field of a settings source.
#[derive(Clone, Copy, Debug, PartialEq, Eq, Structural)]
pub enum SettingsField {
    BaseUrl,
    EnvironmentModel,
    DefaultOpusModel,
    SelectedModel,
}

pub open spec fn field_of(settings: SettingsView, field: SettingsField) -> Option<Seq<char>> {
    match field {
        SettingsField::BaseUrl => settings.env.base_url,
        SettingsField::EnvironmentModel => settings.env.model,
        SettingsField::DefaultOpusModel => settings.env.default_opus_model,
        SettingsField::SelectedModel => settings.model,
    }
}

fn field_value(settings: &ClaudeSettingsSubset, field: SettingsField) -> (r: &Option<String>)
    ensures
        maybe_text(*r) == field_of(settings@, field),
{
    match field {
        SettingsField::BaseUrl => &settings.env.base_url,
        SettingsField::EnvironmentModel => &settings.env.model,
        SettingsField::DefaultOpusModel => &settings.env.default_opus_model,
        SettingsField::SelectedModel => &settings.model,
    }
}

/// Whether a source counts for a field, or for the credential where no field is named.
pub open spec fn has_field(observed: ObservedView, field: Option<SettingsField>) -> bool {
    match field {
        Some(field) => field_of(observed.settings, field) is Some,
        None => observed.settings.env.present.contains("ANTHROPIC_AUTH_TOKEN"@),
    }
}

/// The source that decides a field: of those that have it the one of the lowest rank, of equal
/// ones the first.
pub open spec fn deciding(values: Seq<ObservedView>, field: Option<SettingsField>) -> Option<int>
    decreases values.len(),
{
    if values.len() == 0 {
        None
    } else {
        let before = deciding(values.drop_last(), field);
        let last = values.last();
        if has_field(last, field) && (before is None || last.layer.rank_for(AgentKindV1::ClaudeCode)
            < values[before->0].layer.rank_for(AgentKindV1::ClaudeCode)) {
            Some(values.len() - 1)
        } else {
            before
        }
    }
}

pub(crate) fn present(list: &Vec<String>, name: &str) -> (r: bool)
    ensures
        r == views_of(list@).contains(name@),
{
    let mut i: usize = 0;
    while i < list.len()
        invariant
            i <= list.len(),
            forall|j: int| 0 <= j < i ==> #[trigger] views_of(list@)[j] != name@,
        decreases list.len() - i,
    {
        assert(views_of(list@)[i as int] == list@[i as int]@);
        if same(list[i].as_str(), name) {
            return true;
        }
        i += 1;
    }
    false
}

pub fn select_effective(values: &Vec<ObservedClaudeSettings>, field: Option<SettingsField>) -> (r:
    Option<usize>)
    ensures
        match r {
            Some(i) => i < values@.len() && deciding(observed_view(values@), field) == Some(
                i as int,
            ) && has_field(observed_view(values@)[i as int], field),
            None => deciding(observed_view(values@), field) is None,
        },
{
    let ghost all = observed_view(values@);
    let mut best: Option<usize> = None;
    let mut i: usize = 0;
    assert(all.take(0) == Seq::<ObservedView>::empty());
    while i < values.len()
        invariant
            i <= values.len(),
            all == observed_view(values@),
            match best {
                Some(b) => b < i && deciding(all.take(i as int), field) == Some(b as int)
                    && has_field(all[b as int], field),
                None => deciding(all.take(i as int), field) is None,
            },
        decreases values.len() - i,
    {
        let value = &values[i];
        proof {
            assert(all[i as int] == value@);
            assert(all.take(i + 1).drop_last() == all.take(i as int));
            assert(all.take(i + 1).last() == value@);
        }
        let has = match field {
            Some(field) => field_value(&value.settings, field).is_some(),
            None => present(
                &value.settings.env.present_environment_fields,
                "ANTHROPIC_AUTH_TOKEN",
            ),
        };
        if has {
            let better = match best {
                Some(b) => {
                    assert(all[b as int] == values@[b as int]@);
                    value.layer.precedence_for(AgentKindV1::ClaudeCode)
                        < values[b].layer.precedence_for(AgentKindV1::ClaudeCode)
                },
                None => true,
            };
            if better {
                best = Some(i);
            }
        }
        i += 1;
    }
    assert(all.take(i as int) == all);
    best
}

/// Whether a source sets a variable of the context window that an edit of the user's file does not
/// own.
pub open spec fn overrides_context(observed: ObservedView) -> bool {
    let context = observed.settings.env.context;
    (observed.layer != ConfigLayerV1::User && context.len() > 0) || exists|i: int|
        0 <= i < context.len() && !is_context_variable((#[trigger] context[i]).0)
}

pub open spec fn is_overridden(values: Seq<ObservedView>) -> bool {
    exists|i: int| 0 <= i < values.len() && overrides_context(#[trigger] values[i])
}

/// Whether any source overrides the context window.
pub fn claude_context_override(observations: &Vec<ObservedClaudeSettings>) -> (r: bool)
    ensures
        r == is_overridden(observed_view(observations@)),
{
    let ghost all = observed_view(observations@);
    let mut i: usize = 0;
    while i < observations.len()
        invariant
            i <= observations.len(),
            all == observed_view(observations@),
            forall|j: int| 0 <= j < i ==> !overrides_context(#[trigger] all[j]),
        decreases observations.len() - i,
    {
        let observed = &observations[i];
        let pairs = &observed.settings.env.context_environment;
        assert(all[i as int] == observed@);
        let mut k: usize = 0;
        while k < pairs.len()
            invariant
                k <= pairs.len(),
                i < observations@.len(),
                all == observed_view(observations@),
                all[i as int] == observed@,
                *pairs == observed.settings.env.context_environment,
                observed.layer != ConfigLayerV1::User ==> k == 0,
                forall|j: int|
                    0 <= j < k ==> is_context_variable(
                        (#[trigger] all[i as int].settings.env.context[j]).0,
                    ),
            decreases pairs.len() - k,
        {
            assert(all[i as int].settings.env.context[k as int].0 == pairs@[k as int].0@);
            if observed.layer != ConfigLayerV1::User || !context_variable(pairs[k].0.as_str()) {
                assert(overrides_context(all[i as int]));
                return true;
            }
            k += 1;
        }
        proof {
            let ours = all[i as int];
            assert(ours.settings.env.context.len() == pairs@.len());
            assert(ours.layer == observed.layer);
            assert(!overrides_context(ours));
        }
        i += 1;
    }
    false
}

/// Whether a source beside the user's file decides routing or authentication.
pub open spec fn routes(observed: ObservedView) -> bool {
    let settings = observed.settings;
    observed.layer != ConfigLayerV1::User && (settings.model is Some || settings.env.base_url is Some
        || settings.env.model is Some || settings.env.default_opus_model is Some
        || settings.env.default_sonnet_model is Some || settings.env.default_haiku_model is Some
        || settings.env.small_fast_model is Some || settings.env.present.len() > 0
        || settings.helper)
}

pub open spec fn is_routed(values: Seq<ObservedView>) -> bool {
    exists|i: int| 0 <= i < values.len() && routes(#[trigger] values[i])
}

/// Whether an edit of the user's file alone would not decide the routing.
pub fn claude_native_routing_conflict(observations: &Vec<ObservedClaudeSettings>) -> (r: bool)
    ensures
        r == is_routed(observed_view(observations@)),
{
    let ghost all = observed_view(observations@);
    let mut i: usize = 0;
    while i < observations.len()
        invariant
            i <= observations.len(),
            all == observed_view(observations@),
            forall|j: int| 0 <= j < i ==> !routes(#[trigger] all[j]),
        decreases observations.len() - i,
    {
        let observed = &observations[i];
        assert(all[i as int] == observed@);
        let env = &observed.settings.env;
        if observed.layer != ConfigLayerV1::User && (observed.settings.model.is_some()
            || env.base_url.is_some() || env.model.is_some() || env.default_opus_model.is_some()
            || env.default_sonnet_model.is_some() || env.default_haiku_model.is_some()
            || env.small_fast_model.is_some() || env.present_environment_fields.len() > 0
            || observed.settings.api_key_helper_present) {
            assert(routes(all[i as int]));
            return true;
        }
        i += 1;
    }
    false
}

/// The model that the sources select. A variable counts before the selection in a file; a preset
/// selects none.
pub open spec fn selected_model(values: Seq<ObservedView>) -> Option<Seq<char>> {
    match deciding(values, Some(SettingsField::EnvironmentModel)) {
        Some(i) => field_of(values[i].settings, SettingsField::EnvironmentModel),
        None => match deciding(values, Some(SettingsField::SelectedModel)) {
            Some(i) => field_of(values[i].settings, SettingsField::SelectedModel),
            None => None,
        },
    }
}

pub(crate) fn copied_option(text: &Option<String>) -> (r: Option<String>)
    ensures
        maybe_text(r) == maybe_text(*text),
{
    match text {
        Some(text) => Some(text.clone()),
        None => None,
    }
}

pub fn claude_explicit_model_selection(observations: &Vec<ObservedClaudeSettings>) -> (r: Option<
    String,
>)
    ensures
        maybe_text(r) == selected_model(observed_view(observations@)),
{
    match select_effective(observations, Some(SettingsField::EnvironmentModel)) {
        Some(i) => {
            assert(observed_view(observations@)[i as int] == observations@[i as int]@);
            copied_option(&observations[i].settings.env.model)
        },
        None => match select_effective(observations, Some(SettingsField::SelectedModel)) {
            Some(i) => {
                assert(observed_view(observations@)[i as int] == observations@[i as int]@);
                copied_option(&observations[i].settings.model)
            },
            None => None,
        },
    }
}

/// Whether a credential is among the variables that are present.
pub open spec fn holds_auth(present: Seq<Seq<char>>) -> bool {
    present.contains("ANTHROPIC_AUTH_TOKEN"@) || present.contains("ANTHROPIC_API_KEY"@)
        || present.contains("ANTHROPIC_CUSTOM_HEADERS"@) || present.contains(
        "CLAUDE_CODE_USE_BEDROCK"@,
    ) || present.contains("CLAUDE_CODE_USE_FOUNDRY"@) || present.contains("CLAUDE_CODE_USE_VERTEX"@)
}

pub(crate) fn auth_is_present(list: &Vec<String>) -> (r: bool)
    ensures
        r == holds_auth(views_of(list@)),
{
    present(list, "ANTHROPIC_AUTH_TOKEN") || present(list, "ANTHROPIC_API_KEY") || present(
        list,
        "ANTHROPIC_CUSTOM_HEADERS",
    ) || present(list, "CLAUDE_CODE_USE_BEDROCK") || present(list, "CLAUDE_CODE_USE_FOUNDRY")
        || present(list, "CLAUDE_CODE_USE_VERTEX")
}

/// The value of a variable among pairs.
pub open spec fn paired(pairs: Seq<(Seq<char>, Seq<char>)>, name: Seq<char>) -> Option<Seq<char>>
    decreases pairs.len(),
{
    if pairs.len() == 0 {
        None
    } else if pairs[0].0 == name {
        Some(pairs[0].1)
    } else {
        paired(pairs.skip(1), name)
    }
}

fn find_pair(pairs: &Vec<(String, String)>, name: &str) -> (r: Option<String>)
    ensures
        maybe_text(r) == paired(pairs_view(pairs@), name@),
{
    let ghost all = pairs_view(pairs@);
    let mut i: usize = 0;
    assert(all.skip(0) == all);
    while i < pairs.len()
        invariant
            i <= pairs.len(),
            all == pairs_view(pairs@),
            paired(all, name@) == paired(all.skip(i as int), name@),
        decreases pairs.len() - i,
    {
        proof {
            assert(all.skip(i as int)[0] == all[i as int]);
            assert(all.skip(i as int).skip(1) == all.skip(i + 1));
        }
        if same(pairs[i].0.as_str(), name) {
            return Some(pairs[i].1.clone());
        }
        i += 1;
    }
    None
}

pub open spec fn with_text(document: Members, path: Seq<char>, text: Option<Seq<char>>) -> Members {
    match text {
        Some(text) => document.insert(path, JsonView::Str(text)),
        None => document,
    }
}

pub open spec fn with_marker(document: Members, path: Seq<char>, there: bool) -> Members {
    if there {
        document.insert(path, configured_marker())
    } else {
        document
    }
}

/// The managed fields of a settings source. A helper and credentials are told only to be there.
pub open spec fn document_of(settings: SettingsView) -> Members {
    let env = settings.env;
    let document = with_text(
        Map::empty(),
        "env.CLAUDE_CODE_AUTO_COMPACT_WINDOW"@,
        paired(env.context, "CLAUDE_CODE_AUTO_COMPACT_WINDOW"@),
    );
    let document = with_text(
        document,
        "env.CLAUDE_CODE_MAX_CONTEXT_TOKENS"@,
        paired(env.context, "CLAUDE_CODE_MAX_CONTEXT_TOKENS"@),
    );
    let document = with_text(document, "env.ANTHROPIC_BASE_URL"@, env.base_url);
    let document = with_text(document, "env.ANTHROPIC_MODEL"@, env.model);
    let document = with_text(
        document,
        "env.ANTHROPIC_DEFAULT_OPUS_MODEL"@,
        env.default_opus_model,
    );
    let document = with_text(
        document,
        "env.ANTHROPIC_DEFAULT_SONNET_MODEL"@,
        env.default_sonnet_model,
    );
    let document = with_text(
        document,
        "env.ANTHROPIC_DEFAULT_HAIKU_MODEL"@,
        env.default_haiku_model,
    );
    let document = with_text(document, "env.ANTHROPIC_SMALL_FAST_MODEL"@, env.small_fast_model);
    let document = with_marker(document, "apiKeyHelper"@, settings.helper);
    with_marker(document, "hiroute.auth_environment"@, holds_auth(env.present))
}

fn put_text(document: &mut Vec<(String, Json)>, path: &str, text: &Option<String>)
    ensures
        object_view(final(document)@) == with_text(
            object_view(old(document)@),
            path@,
            maybe_text(*text),
        ),
{
    match text {
        Some(text) => put_member(document, path, Json::Str(text.clone())),
        None => {},
    }
}

pub(crate) fn marker() -> (r: Json)
    ensures
        r@ == configured_marker(),
{
    let mut members: Vec<(String, Json)> = Vec::new();
    put_member(&mut members, "configured", Json::Bool(true));
    Json::Object(members)
}

fn put_marker(document: &mut Vec<(String, Json)>, path: &str, there: bool)
    ensures
        object_view(final(document)@) == with_marker(object_view(old(document)@), path@, there),
{
    if there {
        put_member(document, path, marker());
    }
}

/// The first source of the user's layer.
pub open spec fn user_source(values: Seq<ObservedView>) -> Option<int>
    decreases values.len(),
{
    if values.len() == 0 {
        None
    } else {
        match user_source(values.drop_last()) {
            Some(i) => Some(i),
            None => if values.last().layer == ConfigLayerV1::User {
                Some(values.len() - 1)
            } else {
                None
            },
        }
    }
}

/// The managed fields of the user's file. Sources that count before it are not mixed in.
pub fn claude_user_config_document(observations: &Vec<ObservedClaudeSettings>) -> (r: Result<
    Vec<(String, Json)>,
    AgentFilesystemScanError,
>)
    ensures
        match user_source(observed_view(observations@)) {
            Some(i) => r matches Ok(document) && object_view(document@) == document_of(
                observed_view(observations@)[i].settings,
            ),
            None => r matches Err(error) && error == AgentFilesystemScanError::InvalidConfig,
        },
{
    let ghost all = observed_view(observations@);
    let mut i: usize = 0;
    assert(all.take(0) == Seq::<ObservedView>::empty());
    while i < observations.len()
        invariant
            i <= observations.len(),
            all == observed_view(observations@),
            user_source(all.take(i as int)) is None,
        decreases observations.len() - i,
    {
        let observed = &observations[i];
        proof {
            assert(all[i as int] == observed@);
            assert(all.take(i + 1).drop_last() == all.take(i as int));
            assert(all.take(i + 1).last() == observed@);
        }
        if observed.layer == ConfigLayerV1::User {
            proof {
                lemma_user_source(all, i + 1);
            }
            let settings = &observed.settings;
            let env = &settings.env;
            let mut document: Vec<(String, Json)> = Vec::new();
            assert(object_view(document@) =~= Map::<Seq<char>, JsonView>::empty());
            put_text(
                &mut document,
                "env.CLAUDE_CODE_AUTO_COMPACT_WINDOW",
                &find_pair(&env.context_environment, "CLAUDE_CODE_AUTO_COMPACT_WINDOW"),
            );
            put_text(
                &mut document,
                "env.CLAUDE_CODE_MAX_CONTEXT_TOKENS",
                &find_pair(&env.context_environment, "CLAUDE_CODE_MAX_CONTEXT_TOKENS"),
            );
            put_text(&mut document, "env.ANTHROPIC_BASE_URL", &env.base_url);
            put_text(&mut document, "env.ANTHROPIC_MODEL", &env.model);
            put_text(
                &mut document,
                "env.ANTHROPIC_DEFAULT_OPUS_MODEL",
                &env.default_opus_model,
            );
            put_text(
                &mut document,
                "env.ANTHROPIC_DEFAULT_SONNET_MODEL",
                &env.default_sonnet_model,
            );
            put_text(
                &mut document,
                "env.ANTHROPIC_DEFAULT_HAIKU_MODEL",
                &env.default_haiku_model,
            );
            put_text(&mut document, "env.ANTHROPIC_SMALL_FAST_MODEL", &env.small_fast_model);
            put_marker(&mut document, "apiKeyHelper", settings.api_key_helper_present);
            put_marker(
                &mut document,
                "hiroute.auth_environment",
                auth_is_present(&env.present_environment_fields),
            );
            return Ok(document);
        }
        i += 1;
    }
    assert(all.take(i as int) == all);
    Err(AgentFilesystemScanError::InvalidConfig)
}

proof fn lemma_user_source(values: Seq<ObservedView>, k: int)
    requires
        0 <= k <= values.len(),
        user_source(values.take(k)) is Some,
    ensures
        user_source(values) == user_source(values.take(k)),
    decreases values.len() - k,
{
    if k < values.len() {
        assert(values.take(k + 1).drop_last() == values.take(k));
        lemma_user_source(values, k + 1);
    } else {
        assert(values.take(k) == values);
    }
}

/// Whether two sources of one layer both have a credential.
pub open spec fn has_secret_conflict(values: Seq<ObservedView>) -> bool {
    exists|i: int, j: int|
        0 <= i < j < values.len() && has_field(#[trigger] values[i], None) && has_field(
            #[trigger] values[j],
            None,
        ) && values[i].layer == values[j].layer
}

pub fn same_layer_secret_conflict(values: &Vec<ObservedClaudeSettings>) -> (r: bool)
    ensures
        r == has_secret_conflict(observed_view(values@)),
{
    let ghost all = observed_view(values@);
    let mut i: usize = 0;
    while i < values.len()
        invariant
            i <= values.len(),
            all == observed_view(values@),
            forall|a: int, b: int|
                0 <= a < i && a < b < values@.len() ==> !(has_field(#[trigger] all[a], None)
                    && has_field(#[trigger] all[b], None) && all[a].layer == all[b].layer),
        decreases values.len() - i,
    {
        let left = &values[i];
        assert(all[i as int] == left@);
        if present(&left.settings.env.present_environment_fields, "ANTHROPIC_AUTH_TOKEN") {
            let mut k: usize = i + 1;
            while k < values.len()
                invariant
                    i < k <= values.len(),
                    all == observed_view(values@),
                    all[i as int] == left@,
                    has_field(all[i as int], None),
                    forall|b: int|
                        i < b < k ==> !(has_field(#[trigger] all[b], None) && all[i as int].layer
                            == all[b].layer),
                decreases values.len() - k,
            {
                let right = &values[k];
                assert(all[k as int] == right@);
                if right.layer == left.layer && present(
                    &right.settings.env.present_environment_fields,
                    "ANTHROPIC_AUTH_TOKEN",
                ) {
                    assert(has_field(all[k as int], None));
                    return true;
                }
                k += 1;
            }
        }
        i += 1;
    }
    false
}

} // verus!
