//! What is read of a Codex client's models and sources, and which of them counts.

use vstd::prelude::*;
use crate::agents::codex_catalog::{
    catalog_models, default_of, first_by_priority, is_available, is_catalog, is_wanted,
    last_priority, picks_are_first_by_priority, preserves_default, read_entry, CodexCatalogError,
    EntryView, PolicyView,
};
use crate::agents::codex_catalog_source::{
    baseline_source, catalog_source, configured_catalog_source, model_summaries,
    read_catalog_source, revalidate_codex_catalog_source, revalidate_codex_configured_catalog,
    sample_codex_catalog_summary, CatalogSource, CodexCatalogBaseline, CodexCatalogSummaryV1,
    CodexConfiguredCatalog, ModelSummaryView,
};
use crate::agents::codex_layers::{CodexEffectiveConfiguration, LayerRead};
use crate::agents::codex_sources::{
    codex_source_draft, read_selected_codex_source, AgentSourceCandidate, CodexSourceDraft,
    ProtectedAgentSource, SourceAuth,
};
use crate::agents::filesystem::AgentFilesystemScanError;
use crate::digest::digest_of;
use crate::json::JsonView;
use crate::text::is_plain_absolute;
use crate::runtime::facts::IngressProtocol;
use crate::toml::TomlNode;

verus! {

/// Whether a value is an object that says so of a name.
pub open spec fn says(json: JsonView, name: Seq<char>, value: JsonView) -> bool {
    json matches JsonView::Object(members) && members.contains_key(name) && members[name] == value
}

proof fn lemma_visibilities()
    ensures
        "list"@ != "hide"@,
        "list"@ != "none"@,
        "hide"@ != "none"@,
{
    reveal_strlit("list");
    reveal_strlit("hide");
    reveal_strlit("none");
    assert("list"@[0] == 'l' && "hide"@[0] == 'h' && "none"@[0] == 'n');
}

/// An entry is read by its four members, whatever else it holds: its name, its priority, whether it
/// is shown and whether the interface takes it.
pub proof fn entries_are_read_by_their_members(
    json: JsonView,
    slug: Seq<char>,
    priority: int,
    visibility: Seq<char>,
    in_api: bool,
)
    requires
        says(json, "slug"@, JsonView::Str(slug)),
        says(json, "priority"@, JsonView::Int(priority)),
        says(json, "visibility"@, JsonView::Str(visibility)),
        says(json, "supported_in_api"@, JsonView::Bool(in_api)),
    ensures
        read_entry(json) is Some <==> i32::MIN <= priority <= i32::MAX && (visibility == "list"@
            || visibility == "hide"@ || visibility == "none"@),
        read_entry(json) matches Some(entry) ==> {
            &&& entry.slug == slug
            &&& entry.priority == priority
            &&& entry.supported_in_api == in_api
            &&& entry.visibility is List <==> visibility == "list"@
            &&& entry.visibility is Hide <==> visibility == "hide"@
            &&& entry.visibility is Unlisted <==> visibility == "none"@
        },
{
    lemma_visibilities();
}

/// An entry that lacks one of the four, or has one in another form, is none.
pub proof fn incomplete_entries_are_not_read(json: JsonView)
    ensures
        (json matches JsonView::Object(members) && (!members.contains_key("slug"@)
            || !members.contains_key("priority"@) || !members.contains_key("visibility"@)
            || !members.contains_key("supported_in_api"@))) ==> read_entry(json) is None,
        json is Object && read_entry(json) is Some ==> json->Object_0["slug"@] is Str
            && json->Object_0["priority"@] is Int && json->Object_0["supported_in_api"@] is Bool,
        !(json is Object) && !(json is Array) ==> read_entry(json) is None,
{
}

/// A catalog is a list of entries, each of which can be read, under a known name and under no other
/// entry's. Nothing else is one.
pub proof fn catalogs_name_each_model_once(json: JsonView, names: Seq<Seq<char>>, i: int, j: int)
    ensures
        is_catalog(json, names) ==> (json matches JsonView::Object(members)
            && members.contains_key("models"@) && members["models"@] is Array
            && members["models"@]->Array_0.len() > 0 && (0 <= i < members["models"@]->Array_0.len()
            ==> (read_entry(members["models"@]->Array_0[i]) matches Some(entry) && names.contains(
            entry.slug,
        ))) && (0 <= i < j < members["models"@]->Array_0.len() ==> read_entry(
            members["models"@]->Array_0[i],
        )->0.slug != read_entry(members["models"@]->Array_0[j])->0.slug)),
        (json matches JsonView::Object(members) && members.contains_key("models"@) && (
        members["models"@] matches JsonView::Array(models) && models.len() == 1 && (read_entry(
            models[0],
        ) matches Some(entry) && names.contains(entry.slug)))) ==> is_catalog(json, names),
{
    if is_catalog(json, names) {
        let models = catalog_models(json)->0;
        if 0 <= i < models.len() {
            assert(read_entry(models[i]) is Some);
        }
        if 0 <= i < j < models.len() {
            assert(read_entry(models[i])->0.slug != read_entry(models[j])->0.slug);
        }
    }
}

/// Whether an entry can be started with.
pub open spec fn can_start(entry: EntryView, policy: PolicyView) -> bool {
    policy.uses_codex_backend || entry.supported_in_api
}

/// Without a model that was asked for, a client starts with the entry of the lowest priority among
/// those that are shown, the first of equal ones; where none is shown, among all that it can start
/// with; and with none where there is none.
pub proof fn clients_start_with_the_lowest_priority(
    entries: Seq<EntryView>,
    policy: PolicyView,
    names: Seq<Seq<char>>,
    at: int,
)
    requires
        policy.explicit_model is None,
    ensures
        0 <= at < entries.len() && can_start(entries[at], policy) && entries[at].visibility is List
            && (forall|i: int|
            0 <= i < entries.len() && can_start(#[trigger] entries[i], policy)
                && entries[i].visibility is List ==> entries[at].priority <= entries[i].priority && (
            i < at ==> entries[at].priority < entries[i].priority)) ==> default_of(
            entries,
            policy,
            names,
        ) == Ok::<_, CodexCatalogError>(entries[at].slug),
        0 <= at < entries.len() && can_start(entries[at], policy) && (forall|i: int|
            0 <= i < entries.len() && can_start(#[trigger] entries[i], policy)
                ==> !(entries[i].visibility is List) && entries[at].priority <= entries[i].priority
                && (i < at ==> entries[at].priority < entries[i].priority)) ==> default_of(
            entries,
            policy,
            names,
        ) == Ok::<_, CodexCatalogError>(entries[at].slug),
        (forall|i: int| 0 <= i < entries.len() ==> !can_start(#[trigger] entries[i], policy))
            ==> default_of(entries, policy, names) == Err::<Seq<char>, _>(
            CodexCatalogError::MissingDefault,
        ),
{
    let backend = policy.uses_codex_backend;
    lemma_pick(entries, backend, true);
    lemma_pick(entries, backend, false);
    if 0 <= at < entries.len() && is_wanted(entries[at], backend, true) {
        picks_are_first_by_priority(entries, backend, true, at);
    }
    if 0 <= at < entries.len() && is_wanted(entries[at], backend, false) {
        picks_are_first_by_priority(entries, backend, false, at);
    }
    if let Some(k) = first_by_priority(entries, backend, true) {
        assert(can_start(entries[k], policy));
    }
    if let Some(k) = first_by_priority(entries, backend, false) {
        assert(can_start(entries[k], policy));
    }
}

proof fn lemma_pick(entries: Seq<EntryView>, backend: bool, listed: bool)
    ensures
        first_by_priority(entries, backend, listed) matches Some(k) ==> 0 <= k < entries.len()
            && is_wanted(entries[k], backend, listed),
    decreases entries.len(),
{
    if entries.len() > 0 {
        lemma_pick(entries.drop_last(), backend, listed);
    }
}

/// A model that was asked for is started with where its name is known; only where the provider may
/// fall back, and the model cannot be started with, is another one chosen, as if none had been
/// asked for.
pub proof fn asked_for_models_are_started_with(
    entries: Seq<EntryView>,
    policy: PolicyView,
    names: Seq<Seq<char>>,
    requested: Seq<char>,
)
    requires
        policy.explicit_model == Some(requested),
    ensures
        !names.contains(requested) ==> default_of(entries, policy, names) == Err::<Seq<char>, _>(
            CodexCatalogError::MissingDefault,
        ),
        names.contains(requested) && !policy.allow_provider_model_fallback ==> default_of(
            entries,
            policy,
            names,
        ) == Ok::<_, CodexCatalogError>(requested),
        names.contains(requested) && (exists|i: int|
            0 <= i < entries.len() && can_start(#[trigger] entries[i], policy) && entries[i].slug
                == requested) ==> default_of(entries, policy, names) == Ok::<_, CodexCatalogError>(
            requested,
        ),
        names.contains(requested) && policy.allow_provider_model_fallback && (forall|i: int|
            0 <= i < entries.len() && can_start(#[trigger] entries[i], policy) ==> entries[i].slug
                != requested) ==> default_of(entries, policy, names) == default_of(
            entries,
            PolicyView { explicit_model: None, ..policy },
            names,
        ),
{
    let backend = policy.uses_codex_backend;
    if exists|i: int|
        0 <= i < entries.len() && can_start(#[trigger] entries[i], policy) && entries[i].slug
            == requested {
        let i = choose|i: int|
            0 <= i < entries.len() && can_start(#[trigger] entries[i], policy) && entries[i].slug
                == requested;
        assert(is_wanted(entries[i], backend, false));
        assert(is_available(entries, backend, requested));
    }
    if is_available(entries, backend, requested) {
        let i = choose|i: int|
            0 <= i < entries.len() && is_wanted(#[trigger] entries[i], backend, false)
                && entries[i].slug == requested;
        assert(can_start(entries[i], policy));
    }
}

/// An update is accepted exactly where both catalogs have a default and it is the same one.
pub proof fn updates_keep_the_default(
    before: Seq<EntryView>,
    after: Seq<EntryView>,
    policy: PolicyView,
    names: Seq<Seq<char>>,
)
    ensures
        preserves_default(before, after, policy, names) is Ok <==> default_of(
            before,
            policy,
            names,
        ) is Ok && default_of(before, policy, names) == default_of(after, policy, names),
        default_of(before, policy, names) is Ok && default_of(after, policy, names) is Ok
            && default_of(before, policy, names) != default_of(after, policy, names)
            ==> preserves_default(before, after, policy, names) == Err::<(), _>(
            CodexCatalogError::DefaultChanged,
        ),
{
}

/// The last priority of a catalog is that of some entry, and none is higher.
pub proof fn last_priorities_are_the_highest(entries: Seq<EntryView>)
    requires
        entries.len() > 0,
    ensures
        forall|i: int| 0 <= i < entries.len() ==> (#[trigger] entries[i]).priority <= last_priority(
            entries,
        ),
        exists|i: int| 0 <= i < entries.len() && (#[trigger] entries[i]).priority == last_priority(
            entries,
        ),
    decreases entries.len(),
{
    if entries.len() > 1 {
        let init = entries.drop_last();
        last_priorities_are_the_highest(init);
        let k = choose|k: int| 0 <= k < init.len() && (#[trigger] init[k]).priority
            == last_priority(init);
        assert(entries[k] == init[k]);
        assert(entries[entries.len() - 1] == entries.last());
        assert forall|i: int| 0 <= i < entries.len() implies (#[trigger] entries[i]).priority
            <= last_priority(entries) by {
            if i < init.len() {
                assert(init[i] == entries[i]);
            }
        }
    } else {
        assert(entries[0].priority == last_priority(entries));
    }
}

/// Whether a configuration points at a catalog: by a plain absolute path.
pub open spec fn points_at(entries: Map<Seq<char>, TomlNode>, path: Seq<char>) -> bool {
    entries.contains_key("model_catalog_json"@) && entries["model_catalog_json"@] == TomlNode::Str(
        path,
    )
}

/// The catalog of a target is the one that its configuration points at, and without a pointer the
/// cache in its home; a pointer that cannot be used is an error and is never replaced by the cache.
pub proof fn pointers_count_before_the_cache(
    before: &CodexEffectiveConfiguration,
    codex_home: &str,
    path: Seq<char>,
    r: Result<CatalogSource, AgentFilesystemScanError>,
    configured: Result<Option<CatalogSource>, AgentFilesystemScanError>,
)
    requires
        call_ensures(catalog_source, (before, codex_home), r),
        call_ensures(configured_catalog_source, (before,), configured),
    ensures
        points_at(before@.entries, path) && is_plain_absolute(path) ==> (r matches Ok(source)
            && source.path@ == path && source.metadata_source is UserConfigured && source.pointer
            is Exact) && (configured matches Ok(Some(source)) && source.path@ == path
            && source.metadata_source is UserConfigured && source.pointer is Exact),
        !before@.entries.contains_key("model_catalog_json"@) ==> (r matches Ok(source) && (
        codex_home@.len() > 0 && codex_home@.last() != '/' ==> source.path@ == codex_home@
            + "/models_cache.json"@) && source.metadata_source is TargetCache && source.pointer
            is Absent) && (configured matches Ok(None)),
        before@.entries.contains_key("model_catalog_json"@) && !(exists|p: Seq<char>|
            #[trigger] points_at(before@.entries, p) && is_plain_absolute(p)) ==> r is Err
            && configured is Err,
{
    reveal_strlit("/models_cache.json");
    reveal_strlit("models_cache.json");
    assert(codex_home@.push('/') + "models_cache.json"@ =~= codex_home@ + "/models_cache.json"@);
    if before@.entries.contains_key("model_catalog_json"@) {
        if let TomlNode::Str(p) = before@.entries["model_catalog_json"@] {
            assert(points_at(before@.entries, p));
        }
    }
}

/// A managed update starts from what the user had: the pointer that its record kept, the cache where
/// the user had none, and the scope's own pointer only where no record holds one.
pub proof fn updates_start_from_the_users_catalog(
    baseline: &CodexCatalogBaseline,
    before: &CodexEffectiveConfiguration,
    codex_home: &str,
    r: Result<CatalogSource, AgentFilesystemScanError>,
    scoped: Result<CatalogSource, AgentFilesystemScanError>,
)
    requires
        call_ensures(baseline_source, (baseline, before, codex_home), r),
        call_ensures(catalog_source, (before, codex_home), scoped),
    ensures
        *baseline matches CodexCatalogBaseline::Original(Some(path)) ==> (r matches Ok(source)
            && source.path@ == path@ && source.metadata_source is UserConfigured
            && source.pointer is Ignore),
        *baseline matches CodexCatalogBaseline::Original(None) ==> (r matches Ok(source) && (
        codex_home@.len() > 0 && codex_home@.last() != '/' ==> source.path@ == codex_home@
            + "/models_cache.json"@) && source.metadata_source is TargetCache && source.pointer
            is Ignore),
        *baseline is Scope ==> (r is Ok <==> scoped is Ok) && (r matches Ok(source) ==> (
        scoped matches Ok(own) && source.path@ == own.path@ && source.metadata_source
            == own.metadata_source && source.pointer == own.pointer)),
{
    reveal_strlit("/models_cache.json");
    reveal_strlit("models_cache.json");
    assert(codex_home@.push('/') + "models_cache.json"@ =~= codex_home@ + "/models_cache.json"@);
}

/// A catalog that was read is that of its file: the file was there, the scope did not change while
/// it was read, and the pointer still stands at it, or still does not, as its source says.
pub proof fn catalogs_are_read_in_an_unchanged_scope(
    source: &CatalogSource,
    before: &CodexEffectiveConfiguration,
    read: &LayerRead,
    after: &Result<CodexEffectiveConfiguration, AgentFilesystemScanError>,
    r: Result<CodexConfiguredCatalog, AgentFilesystemScanError>,
)
    requires
        call_ensures(read_catalog_source, (source, before, read, after), r),
    ensures
        r matches Ok(catalog) ==> {
            &&& catalog.path@ == source.path@ && catalog.metadata_source == source.metadata_source
            &&& *read matches Ok(Some(bytes)) && catalog.content_digest@ == digest_of(bytes@)
            &&& catalog_models(catalog.original@) is Some
            &&& catalog.context_digest@ == before@.context_digest
            &&& *after matches Ok(later) && later@.context_digest == before@.context_digest
                && later@.dependency_digest == before@.dependency_digest && (source.pointer is Exact
                ==> points_at(later@.entries, source.path@)) && (source.pointer is Absent ==> !(
            exists|p: Seq<char>| #[trigger] points_at(later@.entries, p)))
        },
        *read matches Ok(None) ==> r is Err,
        (*after matches Ok(later) && (later@.context_digest != before@.context_digest
            || later@.dependency_digest != before@.dependency_digest)) ==> r is Err,
{
}

/// A catalog that was read before still stands only where it is read again just so.
pub proof fn changed_catalogs_are_refused(
    sampled: &Result<CodexConfiguredCatalog, AgentFilesystemScanError>,
    expected: &CodexConfiguredCatalog,
    r: Result<(), AgentFilesystemScanError>,
)
    requires
        call_ensures(revalidate_codex_catalog_source, (sampled, expected), r),
    ensures
        r is Ok <==> (*sampled matches Ok(catalog) && catalog.metadata_source
            == expected.metadata_source && catalog.path@ == expected.path@ && catalog.original@
            == expected.original@ && catalog.content_digest@ == expected.content_digest@
            && catalog.context_digest@ == expected.context_digest@ && catalog.dependency_digest@
            == expected.dependency_digest@),
{
}

/// A configured catalog likewise; one that is no longer configured was changed.
pub proof fn changed_pointers_are_refused(
    sampled: &Result<Option<CodexConfiguredCatalog>, AgentFilesystemScanError>,
    expected: &CodexConfiguredCatalog,
    r: Result<(), AgentFilesystemScanError>,
)
    requires
        call_ensures(revalidate_codex_configured_catalog, (sampled, expected), r),
    ensures
        r is Ok <==> (*sampled matches Ok(Some(catalog)) && catalog.metadata_source
            == expected.metadata_source && catalog.path@ == expected.path@ && catalog.original@
            == expected.original@ && catalog.content_digest@ == expected.content_digest@
            && catalog.context_digest@ == expected.context_digest@ && catalog.dependency_digest@
            == expected.dependency_digest@),
        (*sampled matches Ok(None)) ==> r == Err::<(), _>(AgentFilesystemScanError::SourceChanged),
{
}

proof fn lemma_summaries(models: Seq<JsonView>, reasoning: Option<Seq<char>>, k: int)
    requires
        model_summaries(models, reasoning) is Some,
        0 <= k < models.len(),
    ensures
        model_summaries(models, reasoning)->0.len() == models.len(),
        ({
            let told = model_summaries(models, reasoning)->0[k];
            &&& says(models[k], "slug"@, JsonView::Str(told.client_model_id))
            &&& says(models[k], "display_name"@, JsonView::Str(told.display_name))
            &&& reasoning is Some ==> told.native_reasoning_profile == reasoning
            &&& reasoning is None ==> match told.native_reasoning_profile {
                Some(level) => says(models[k], "default_reasoning_level"@, JsonView::Str(level)),
                None => forall|level: Seq<char>| !(#[trigger] says(
                    models[k],
                    "default_reasoning_level"@,
                    JsonView::Str(level),
                )),
            }
        }),
    decreases models.len(),
{
    let init = models.drop_last();
    if init.len() == 0 {
        assert(model_summaries(init, reasoning) == Some(Seq::<ModelSummaryView>::empty()));
    } else {
        lemma_summaries(init, reasoning, 0);
    }
    if k < init.len() {
        lemma_summaries(init, reasoning, k);
        assert(init[k] == models[k]);
    } else {
        assert(models[k] == models.last());
    }
}

/// What is shown of a catalog: every model by its own names, with the reasoning that the scope sets,
/// or else the model's own default; and the default that a client starts with.
pub proof fn summaries_show_the_models_names(
    configured: Result<CodexConfiguredCatalog, AgentFilesystemScanError>,
    schema_holds: bool,
    explicit_model: Option<&str>,
    effective: Option<&CodexEffectiveConfiguration>,
    names: &Vec<String>,
    r: Result<CodexCatalogSummaryV1, CodexCatalogError>,
    k: int,
)
    requires
        call_ensures(
            sample_codex_catalog_summary,
            (configured, schema_holds, explicit_model, effective, names),
            r,
        ),
        r is Ok,
        0 <= k < r->Ok_0.models@.len(),
    ensures
        ({
            let summary = r->Ok_0;
            let models = catalog_models(configured->Ok_0.original@)->0;
            let entries = effective->0@.entries;
            let told = summary.models@[k];
            &&& configured is Ok && schema_holds && effective is Some
            &&& summary.metadata_source == configured->Ok_0.metadata_source
            &&& summary.models@.len() == models.len()
            &&& says(models[k], "slug"@, JsonView::Str(told.client_model_id@))
            &&& says(models[k], "display_name"@, JsonView::Str(told.display_name@))
            &&& entries.contains_key("model_reasoning_effort"@) ==> (
            entries["model_reasoning_effort"@] matches TomlNode::Str(effort) && (
            told.native_reasoning_profile matches Some(level) && level@ == effort))
            &&& !entries.contains_key("model_reasoning_effort"@) ==> match told.native_reasoning_profile {
                Some(level) => says(models[k], "default_reasoning_level"@, JsonView::Str(level@)),
                None => forall|level: Seq<char>| !(#[trigger] says(
                    models[k],
                    "default_reasoning_level"@,
                    JsonView::Str(level),
                )),
            }
            &&& explicit_model matches Some(model) ==> summary.native_default_model@ == model@
        }),
{
    let models = catalog_models(configured->Ok_0.original@)->0;
    let entries = effective->0@.entries;
    let reasoning = crate::agents::codex_catalog_source::scope_reasoning(entries)->0;
    let views = crate::agents::codex_catalog_source::summaries_view(r->Ok_0.models@);
    assert(views.len() == r->Ok_0.models@.len());
    lemma_summaries_len(models, reasoning);
    lemma_summaries(models, reasoning, k);
    assert(views[k].client_model_id == r->Ok_0.models@[k].client_model_id@);
}

proof fn lemma_summaries_len(models: Seq<JsonView>, reasoning: Option<Seq<char>>)
    ensures
        model_summaries(models, reasoning) matches Some(list) ==> list.len() == models.len(),
    decreases models.len(),
{
    if models.len() > 0 {
        lemma_summaries_len(models.drop_last(), reasoning);
    }
}

/// How a source authenticates: by the one mechanism that its provider names. The native provider
/// has its own login; a provider that names more than one mechanism is ambiguous, and one that
/// names none has none. A token or a variable is read only where it is the one.
pub proof fn sources_authenticate_by_one_mechanism(
    sampled: &CodexEffectiveConfiguration,
    r: Result<Option<CodexSourceDraft>, AgentFilesystemScanError>,
    settings: Map<Seq<char>, TomlNode>,
    provider: Seq<char>,
)
    requires
        call_ensures(codex_source_draft, (sampled,), r),
        r matches Ok(Some(_)),
        says_text(sampled@.entries, "model_provider"@, provider) || (
        !sampled@.entries.contains_key("model_provider"@) && provider == "openai"@),
        is_settings_of(sampled@.entries, provider, settings),
    ensures
        ({
            let draft = (r->Ok_0)->0;
            let inline = settings.contains_key("experimental_bearer_token"@);
            let variable = settings.contains_key("env_key"@);
            let helper = settings.contains_key("auth"@);
            let session = provider == "openai"@ || (settings.contains_key("requires_openai_auth"@)
                && settings["requires_openai_auth"@] == TomlNode::Bool(true));
            &&& draft.authentication is Missing <==> !inline && !variable && !helper && !session
            &&& draft.authentication is NativeSessionNeedsConfirmation <==> session && !inline
                && !variable && !helper
            &&& draft.authentication is HelperNeedsInput <==> helper && !inline && !variable
                && !session
            &&& draft.authentication is EnvironmentKey <==> variable && !inline && !helper
                && !session
            &&& draft.authentication is InlineToken <==> inline && !variable && !helper && !session
            &&& draft.auth matches SourceAuth::Environment(key) ==> draft.authentication
                is EnvironmentKey && says_text(settings, "env_key"@, key@)
            &&& draft.auth matches SourceAuth::Inline(token) ==> draft.authentication is InlineToken
                && says_text(settings, "experimental_bearer_token"@, token@)
            &&& draft.authentication is EnvironmentKey ==> draft.auth is Environment
            &&& draft.authentication is InlineToken ==> draft.auth is Inline
        }),
{
    let draft = (r->Ok_0)->0;
    assert(draft@.auth == draft.auth@);
    assert(crate::agents::codex_sources::provider_entries(sampled@.entries, provider) == settings);
}

pub open spec fn says_text(entries: Map<Seq<char>, TomlNode>, key: Seq<char>, text: Seq<char>) -> bool {
    entries.contains_key(key) && entries[key] == TomlNode::Str(text)
}

/// Whether these are the settings of a provider; one without a table has none.
pub open spec fn is_settings_of(
    entries: Map<Seq<char>, TomlNode>,
    provider: Seq<char>,
    settings: Map<Seq<char>, TomlNode>,
) -> bool {
    if entries.contains_key("model_providers"@) && (
    entries["model_providers"@] matches TomlNode::Entries(providers) && providers.contains_key(
        provider,
    ) && providers[provider] is Entries) {
        settings == entries["model_providers"@]->Entries_0[provider]->Entries_0
    } else {
        settings == Map::<Seq<char>, TomlNode>::empty()
    }
}

/// Where a source goes: to the address of its provider, or the native provider's own where it names
/// none; any other provider without an address is no source. It has the model of its
/// configuration, and speaks no other protocol than Responses.
pub proof fn sources_go_to_their_provider(
    sampled: &CodexEffectiveConfiguration,
    r: Result<Option<CodexSourceDraft>, AgentFilesystemScanError>,
    settings: Map<Seq<char>, TomlNode>,
    provider: Seq<char>,
)
    requires
        call_ensures(codex_source_draft, (sampled,), r),
        says_text(sampled@.entries, "model_provider"@, provider) || (
        !sampled@.entries.contains_key("model_provider"@) && provider == "openai"@),
        is_settings_of(sampled@.entries, provider, settings),
    ensures
        r matches Ok(Some(draft)) ==> {
            &&& settings.contains_key("base_url"@) ==> says_text(
                settings,
                "base_url"@,
                draft.endpoint@,
            )
            &&& !settings.contains_key("base_url"@) ==> provider == "openai"@ && draft.endpoint@
                == "https://api.openai.com/v1"@
            &&& draft.model matches Some(model) ==> says_text(
                sampled@.entries,
                "model"@,
                model@,
            )
            &&& draft.model is None ==> !sampled@.entries.contains_key("model"@)
            &&& settings.contains_key("wire_api"@) ==> says_text(
                settings,
                "wire_api"@,
                "responses"@,
            )
            &&& draft.candidate_ref@ == "source/codex/"@ + sampled@.context_digest
            &&& draft.context_ref@ == "agent-context/"@ + sampled@.context_digest
        },
        !settings.contains_key("base_url"@) && provider != "openai"@ && (
        sampled@.entries.contains_key("model"@) ==> sampled@.entries["model"@] is Str) ==> (r
            matches Ok(None)),
        settings.contains_key("base_url"@) && !(settings["base_url"@] is Str) ==> r is Err,
        settings.contains_key("wire_api"@) && settings.contains_key("base_url"@) && !says_text(
            settings,
            "wire_api"@,
            "responses"@,
        ) ==> r is Err,
{
    assert(crate::agents::codex_sources::provider_entries(sampled@.entries, provider) == settings);
    if let Ok(Some(draft)) = r {
        assert(draft@.model is Some <==> draft.model is Some);
    }
}

/// A selected source is handed out only where it is still the selected one, before its credential
/// is read and after; its credential is the one that its configuration names.
pub proof fn selected_sources_are_read_unchanged(
    first: Option<(CodexSourceDraft, AgentSourceCandidate)>,
    selected: &AgentSourceCandidate,
    environment: Option<String>,
    accepted: bool,
    again: &Result<Option<AgentSourceCandidate>, AgentFilesystemScanError>,
    r: Result<ProtectedAgentSource, AgentFilesystemScanError>,
)
    requires
        call_ensures(
            read_selected_codex_source,
            (first, selected, environment, accepted, again),
            r,
        ),
    ensures
        r matches Ok(source) ==> {
            &&& first matches Some(pair) && pair.1@ == selected@ && source.endpoint@
                == pair.0.endpoint@ && match pair.0.auth {
                SourceAuth::Unreadable => source.credential is None,
                SourceAuth::Environment(_) => accepted && environment is Some && (
                source.credential matches Some(value) && value@ == environment->0@),
                SourceAuth::Inline(token) => accepted && (source.credential matches Some(value)
                    && value@ == token@),
            }
            &&& *again matches Ok(Some(later)) && later@ == selected@
        },
        (first matches Some(pair) && pair.1@ == selected@ && pair.0.auth is Unreadable) && (
        *again matches Ok(Some(later)) && later@ == selected@) ==> r is Ok,
{
    if let Ok(source) = r {
        if let Some(pair) = first {
            assert(pair.0@.auth == pair.0.auth@);
            assert(pair.0@.endpoint == pair.0.endpoint@);
        }
    }
}

/// What is shown of a draft: its references, its digest, how it authenticates, and its origin; it
/// speaks Responses.
pub proof fn drafts_are_shown_without_their_credential(
    draft: &CodexSourceDraft,
    origin: Option<String>,
    r: AgentSourceCandidate,
)
    requires
        call_ensures(CodexSourceDraft::candidate, (draft, origin), r),
    ensures
        r.candidate_ref@ == draft.candidate_ref@,
        r.context_ref@ == draft.context_ref@,
        r.observed_digest@ == draft.observed_digest@,
        r.authentication == draft.authentication,
        r.native_ingress == IngressProtocol::Responses,
        r.endpoint_origin is Some <==> origin is Some,
        origin is Some ==> r.endpoint_origin->0@ == origin->0@,
{
    assert(r@.endpoint_origin is Some <==> r.endpoint_origin is Some);
    assert(draft@.candidate_ref == draft.candidate_ref@);
}

} // verus!
