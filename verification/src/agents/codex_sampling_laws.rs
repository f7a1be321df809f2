//! Which layer of a Codex configuration decides a setting.

use vstd::prelude::*;
use crate::agents::codex_layers::{
    collected, effective_configuration, layer_entries, layer_files, layers_view, merged,
    merged_node, no_fields, observed, observed_fields, override_entries, overrides_context,
    profile_applied, profile_table, sampled_layers, sampled_overrides, scope_layers,
    CodexConfigurationScope, EffectiveView, FieldFact, LayerFile, LayerRead, LayerView, SampleView,
    SelectedView,
};
use crate::agents::discovery::{ConfigLayerV1, ObservationView};
use crate::agents::filesystem::AgentFilesystemScanError;
use crate::digest::digest_of;
use crate::json::JsonView;
use crate::text::{decimal_text, views_of};
use crate::toml::{walk, TomlNode};

verus! {

/// The settings that are observed.
pub enum Setting {
    Model,
    Provider,
    Catalog,
    Window,
    Compaction,
}

/// The name of a setting in a configuration.
pub open spec fn key_of(setting: Setting) -> Seq<char> {
    match setting {
        Setting::Model => "model"@,
        Setting::Provider => "model_provider"@,
        Setting::Catalog => "model_catalog_json"@,
        Setting::Window => "model_context_window"@,
        Setting::Compaction => "model_auto_compact_token_limit"@,
    }
}

/// What was chosen for a setting.
pub open spec fn chosen(fields: SelectedView, setting: Setting) -> Option<FieldFact> {
    match setting {
        Setting::Model => fields.model,
        Setting::Provider => fields.provider,
        Setting::Catalog => fields.catalog,
        Setting::Window => fields.context_window,
        Setting::Compaction => fields.auto_compact,
    }
}

/// The text of a value: a string itself, a number in decimal.
pub open spec fn text_of(node: TomlNode) -> Seq<char> {
    match node {
        TomlNode::Str(text) => text,
        TomlNode::Int(value, _) => decimal_text(value as nat),
        _ => Seq::empty(),
    }
}

/// Whether a value is usable: a window or a limit is a number above zero, anything else a string.
pub open spec fn is_usable(setting: Setting, node: TomlNode) -> bool {
    match setting {
        Setting::Window | Setting::Compaction => node matches TomlNode::Int(value, _) && value > 0,
        _ => node is Str,
    }
}

proof fn lemma_collected(
    fields: SelectedView,
    entries: Map<Seq<char>, TomlNode>,
    layer: ConfigLayerV1,
    digest: Seq<char>,
    setting: Setting,
)
    requires
        collected(fields, entries, layer, digest) is Some,
    ensures
        ({
            let after = collected(fields, entries, layer, digest)->0;
            let key = key_of(setting);
            &&& entries.contains_key(key) ==> is_usable(setting, entries[key]) && chosen(
                after,
                setting,
            ) == Some(FieldFact { layer, value: text_of(entries[key]), digest })
            &&& !entries.contains_key(key) ==> chosen(after, setting) == chosen(fields, setting)
        }),
{
}

/// What a file of a scope says at its top.
pub open spec fn says(read: LayerRead, key: Seq<char>) -> bool {
    read matches Ok(Some(bytes)) && layer_entries(bytes@) is Some && layer_entries(
        bytes@,
    )->0.contains_key(key)
}

pub open spec fn said(read: LayerRead, key: Seq<char>) -> TomlNode {
    layer_entries(read->Ok_0->0@)->0[key]
}

/// Whether the file at a place is the last that says something of a name.
pub open spec fn is_last(reads: Seq<LayerRead>, n: int, key: Seq<char>, at: int) -> bool {
    0 <= at < n && says(reads[at], key) && forall|i: int|
        at < i < n ==> !says(#[trigger] reads[i], key)
}

proof fn lemma_layers(
    scope: CodexConfigurationScope,
    files: Seq<LayerView>,
    reads: Seq<LayerRead>,
    setting: Setting,
)
    requires
        files.len() <= reads.len(),
        sampled_layers(scope, files, reads) is Ok,
    ensures
        ({
            let sample = sampled_layers(scope, files, reads)->Ok_0;
            let key = key_of(setting);
            let n = files.len() as int;
            &&& forall|at: int|
                #![trigger is_last(reads, n, key, at)]
                is_last(reads, n, key, at) ==> {
                    &&& is_usable(setting, said(reads[at], key))
                    &&& chosen(sample.fields, setting) == Some(
                        FieldFact {
                            layer: files[at].layer,
                            value: text_of(said(reads[at], key)),
                            digest: digest_of(reads[at]->Ok_0->0@),
                        },
                    )
                    &&& sample.entries.contains_key(key) && sample.entries[key] == said(
                        reads[at],
                        key,
                    )
                }
            &&& (forall|i: int| 0 <= i < n ==> !says(#[trigger] reads[i], key)) ==> chosen(
                sample.fields,
                setting,
            ) is None && !sample.entries.contains_key(key)
        }),
    decreases files.len(),
{
    let key = key_of(setting);
    let n = files.len() as int;
    if files.len() > 0 {
        let init = files.drop_last();
        lemma_layers(scope, init, reads, setting);
        let before = sampled_layers(scope, init, reads)->Ok_0;
        let sample = sampled_layers(scope, files, reads)->Ok_0;
        let last = n - 1;
        let file = files.last();
        assert(files[last] == file);
        match reads[last] {
            Ok(Some(bytes)) => {
                let entries = layer_entries(bytes@)->0;
                lemma_collected(before.fields, entries, file.layer, digest_of(bytes@), setting);
                lemma_merged(before.entries, entries, setting);
                assert(sample.entries == merged(before.entries, entries, 0));
                assert(chosen(sample.fields, setting) == chosen(
                    collected(before.fields, entries, file.layer, digest_of(bytes@))->0,
                    setting,
                ));
            },
            _ => {
                assert(sample.fields == before.fields && sample.entries == before.entries);
            },
        }
        assert forall|at: int|
            #![trigger is_last(reads, n, key, at)]
            is_last(reads, n, key, at) implies {
            &&& is_usable(setting, said(reads[at], key))
            &&& chosen(sample.fields, setting) == Some(
                FieldFact {
                    layer: files[at].layer,
                    value: text_of(said(reads[at], key)),
                    digest: digest_of(reads[at]->Ok_0->0@),
                },
            )
            &&& sample.entries.contains_key(key) && sample.entries[key] == said(reads[at], key)
        } by {
            if at < last {
                assert(!says(reads[last], key));
                assert(is_last(reads, last, key, at)) by {
                    assert forall|i: int| at < i < last implies !says(
                        #[trigger] reads[i],
                        key,
                    ) by {}
                }
                assert(init[at] == files[at]);
            }
        }
        if forall|i: int| 0 <= i < n ==> !says(#[trigger] reads[i], key) {
            assert(!says(reads[last], key));
        }
    }
}

proof fn lemma_merged(
    target: Map<Seq<char>, TomlNode>,
    source: Map<Seq<char>, TomlNode>,
    setting: Setting,
)
    ensures
        ({
            let key = key_of(setting);
            let after = merged(target, source, 0);
            &&& source.contains_key(key) && !(source[key] is Entries) ==> after.contains_key(key)
                && after[key] == source[key]
            &&& !source.contains_key(key) ==> (after.contains_key(key) <==> target.contains_key(
                key,
            )) && (target.contains_key(key) ==> after[key] == target[key])
        }),
{
}

/// The files of a scope in the order in which they count: the system's first, then the user's, the
/// projects' from the outermost to the innermost, and the selected profile's last.
pub proof fn nearer_files_come_later(
    scope: &CodexConfigurationScope,
    r: Vec<LayerFile>,
    at: int,
)
    requires
        call_ensures(layer_files, (scope,), r),
    ensures
        ({
            let first = if scope.system_file is Some {
                1int
            } else {
                0
            };
            let projects = scope.trusted_project_files@;
            &&& r@.len() == first + 1 + projects.len() + (if scope.selected_profile_file is Some {
                1int
            } else {
                0
            })
            &&& scope.system_file matches Some(path) ==> r@[0].path@ == path@ && r@[0].layer
                is Managed
            &&& r@[first].path@ == scope.user_file@ && r@[first].layer is User
            &&& 0 <= at < projects.len() ==> r@[first + 1 + at].path@ == projects[at]@ && r@[first
                + 1 + at].layer is Project
            &&& scope.selected_profile_file matches Some(path) ==> r@.last().path@ == path@
                && r@.last().layer is Launch
        }),
{
    let views = layers_view(r@);
    assert(views.len() == r@.len());
    assert forall|i: int| 0 <= i < r@.len() implies views[i].path == (#[trigger] r@[i]).path@
        && views[i].layer == r@[i].layer by {}
    let first = if scope.system_file is Some {
        1int
    } else {
        0
    };
    assert(views[first].path == scope.user_file@);
    if 0 <= at < scope.trusted_project_files@.len() {
        assert(views[first + 1 + at].path == scope.trusted_project_files@[at]@);
    }
    if scope.system_file is Some {
        assert(views[0].layer is Managed);
    }
    if scope.selected_profile_file is Some {
        assert(views[views.len() - 1].layer is Launch);
    }
}

/// Whether an override sets a name at its top.
pub open spec fn sets(value: Seq<char>, key: Seq<char>) -> bool {
    override_entries(value) is Some && override_entries(value)->0.contains_key(key)
}

pub open spec fn is_last_override(values: Seq<Seq<char>>, key: Seq<char>, at: int) -> bool {
    0 <= at < values.len() && sets(values[at], key) && forall|i: int|
        at < i < values.len() ==> !sets(#[trigger] values[i], key)
}

proof fn lemma_overrides(sample: SampleView, values: Seq<Seq<char>>, setting: Setting)
    requires
        sampled_overrides(sample, values) is Some,
    ensures
        ({
            let after = sampled_overrides(sample, values)->0;
            let key = key_of(setting);
            &&& forall|at: int|
                #![trigger is_last_override(values, key, at)]
                is_last_override(values, key, at) ==> {
                    let node = override_entries(values[at])->0[key];
                    &&& is_usable(setting, node)
                    &&& chosen(after.fields, setting) == Some(
                        FieldFact {
                            layer: ConfigLayerV1::Process,
                            value: text_of(node),
                            digest: digest_of(vstd::utf8::encode_utf8(values[at])),
                        },
                    )
                    &&& after.entries.contains_key(key) && after.entries[key] == node
                }
            &&& (forall|i: int| 0 <= i < values.len() ==> !sets(#[trigger] values[i], key)) ==> {
                &&& chosen(after.fields, setting) == chosen(sample.fields, setting)
                &&& after.entries.contains_key(key) <==> sample.entries.contains_key(key)
                &&& sample.entries.contains_key(key) ==> after.entries[key] == sample.entries[key]
            }
        }),
    decreases values.len(),
{
    if values.len() > 0 {
        let key = key_of(setting);
        let init = values.drop_last();
        lemma_overrides(sample, init, setting);
        let before = sampled_overrides(sample, init)->0;
        let after = sampled_overrides(sample, values)->0;
        let last = values.len() - 1;
        assert(values[last] == values.last());
        let entries = override_entries(values.last())->0;
        let digest = digest_of(vstd::utf8::encode_utf8(values.last()));
        lemma_collected(before.fields, entries, ConfigLayerV1::Process, digest, setting);
        lemma_merged(before.entries, entries, setting);
        assert forall|i: int| 0 <= i < init.len() implies init[i] == #[trigger] values[i] by {}
        assert forall|at: int|
            #![trigger is_last_override(values, key, at)]
            is_last_override(values, key, at) implies {
            let node = override_entries(values[at])->0[key];
            &&& is_usable(setting, node)
            &&& chosen(after.fields, setting) == Some(
                FieldFact {
                    layer: ConfigLayerV1::Process,
                    value: text_of(node),
                    digest: digest_of(vstd::utf8::encode_utf8(values[at])),
                },
            )
            &&& after.entries.contains_key(key) && after.entries[key] == node
        } by {
            if at < last {
                assert(!sets(values[last], key));
                assert(is_last_override(init, key, at)) by {
                    assert forall|i: int| at < i < init.len() implies !sets(
                        #[trigger] init[i],
                        key,
                    ) by {
                        assert(!sets(values[i], key));
                    }
                }
            }
        }
        if forall|i: int| 0 <= i < values.len() ==> !sets(#[trigger] values[i], key) {
            assert(!sets(values[last], key));
            assert forall|i: int| 0 <= i < init.len() implies !sets(#[trigger] init[i], key) by {
                assert(!sets(values[i], key));
            }
        }
    }
}

/// An observation of a setting.
pub open spec fn told(
    setting: Setting,
    layer: ConfigLayerV1,
    value: Seq<char>,
    digest: Seq<char>,
) -> ObservationView {
    ObservationView {
        path: key_of(setting),
        layer,
        value: JsonView::Str(value),
        source_digest: digest,
    }
}

proof fn lemma_keys()
    ensures
        "model"@ != "model_provider"@,
        "model"@ != "model_catalog_json"@,
        "model"@ != "model_context_window"@,
        "model"@ != "model_auto_compact_token_limit"@,
        "model_provider"@ != "model_catalog_json"@,
        "model_provider"@ != "model_context_window"@,
        "model_provider"@ != "model_auto_compact_token_limit"@,
        "model_catalog_json"@ != "model_context_window"@,
        "model_catalog_json"@ != "model_auto_compact_token_limit"@,
        "model_context_window"@ != "model_auto_compact_token_limit"@,
{
    reveal_strlit("model");
    reveal_strlit("model_provider");
    reveal_strlit("model_catalog_json");
    reveal_strlit("model_context_window");
    reveal_strlit("model_auto_compact_token_limit");
    assert("model"@.len() == 5);
    assert("model_provider"@.len() == 14);
    assert("model_catalog_json"@.len() == 18);
    assert("model_context_window"@.len() == 20);
    assert("model_auto_compact_token_limit"@.len() == 30);
}

proof fn lemma_observed(fields: SelectedView, setting: Setting)
    ensures
        ({
            let all = observed_fields(fields);
            &&& chosen(fields, setting) matches Some(fact) ==> all.contains(
                told(setting, fact.layer, fact.value, fact.digest),
            )
            &&& forall|k: int|
                0 <= k < all.len() && (#[trigger] all[k]).path == key_of(setting) ==> (chosen(
                    fields,
                    setting,
                ) matches Some(fact) && all[k] == told(setting, fact.layer, fact.value, fact.digest))
        }),
{
    lemma_keys();
    let a = observed("model"@, fields.model);
    let b = observed("model_auto_compact_token_limit"@, fields.auto_compact);
    let c = observed("model_catalog_json"@, fields.catalog);
    let d = observed("model_context_window"@, fields.context_window);
    let e = observed("model_provider"@, fields.provider);
    let all = observed_fields(fields);
    let own = match setting {
        Setting::Model => (a, 0int),
        Setting::Compaction => (b, a.len() as int),
        Setting::Catalog => (c, (a + b).len() as int),
        Setting::Window => (d, (a + b + c).len() as int),
        Setting::Provider => (e, (a + b + c + d).len() as int),
    };
    if let Some(fact) = chosen(fields, setting) {
        assert(all[own.1] == own.0[0]);
    }
    assert forall|k: int|
        0 <= k < all.len() && (#[trigger] all[k]).path == key_of(setting) implies (chosen(
        fields,
        setting,
    ) matches Some(fact) && all[k] == told(setting, fact.layer, fact.value, fact.digest)) by {
        if k < a.len() {
            assert(all[k] == a[k]);
        } else if k < (a + b).len() {
            assert(all[k] == b[k - a.len()]);
        } else if k < (a + b + c).len() {
            assert(all[k] == c[k - (a + b).len()]);
        } else if k < (a + b + c + d).len() {
            assert(all[k] == d[k - (a + b + c).len()]);
        } else {
            assert(all[k] == e[k - (a + b + c + d).len()]);
        }
    }
}

/// A setting of a launch override counts before any file's, and the last override of a name before
/// the others; it is told as the process's own.
pub proof fn overrides_count_first(
    scope: CodexConfigurationScope,
    reads: Seq<LayerRead>,
    setting: Setting,
    at: int,
)
    requires
        effective_configuration(scope, reads) is Ok,
        is_last_override(views_of(scope.cli_overrides@), key_of(setting), at),
    ensures
        ({
            let effective = effective_configuration(scope, reads)->Ok_0;
            let value = views_of(scope.cli_overrides@)[at];
            let node = override_entries(value)->0[key_of(setting)];
            &&& effective.entries.contains_key(key_of(setting))
            &&& effective.entries[key_of(setting)] == node
            &&& effective.observations.contains(
                told(
                    setting,
                    ConfigLayerV1::Process,
                    text_of(node),
                    digest_of(vstd::utf8::encode_utf8(value)),
                ),
            )
        }),
{
    let sample = profile_applied(sampled_layers(scope, scope_layers(scope), reads)->Ok_0)->0;
    let values = views_of(scope.cli_overrides@);
    lemma_overrides(sample, values, setting);
    lemma_observed(sampled_overrides(sample, values)->0.fields, setting);
}

/// Without an override of it, and without a selected profile, a setting is what the last file says
/// that says anything of it, told with that file's layer and digest; where none does, it is not
/// there and is not told.
pub proof fn the_last_file_counts(
    scope: CodexConfigurationScope,
    reads: Seq<LayerRead>,
    setting: Setting,
    at: int,
)
    requires
        scope_layers(scope).len() == reads.len(),
        effective_configuration(scope, reads) is Ok,
        scope.selection is Root,
        forall|i: int|
            0 <= i < scope.cli_overrides@.len() ==> !sets(
                #[trigger] scope.cli_overrides@[i]@,
                key_of(setting),
            ),
    ensures
        ({
            let effective = effective_configuration(scope, reads)->Ok_0;
            let key = key_of(setting);
            &&& is_last(reads, reads.len() as int, key, at) ==> {
                &&& effective.entries.contains_key(key)
                &&& effective.entries[key] == said(reads[at], key)
                &&& is_usable(setting, said(reads[at], key))
                &&& effective.observations.contains(
                    told(
                        setting,
                        scope_layers(scope)[at].layer,
                        text_of(said(reads[at], key)),
                        digest_of(reads[at]->Ok_0->0@),
                    ),
                )
            }
            &&& (forall|i: int| 0 <= i < reads.len() ==> !says(#[trigger] reads[i], key)) ==> {
                &&& !effective.entries.contains_key(key)
                &&& forall|k: int|
                    0 <= k < effective.observations.len() ==> (
                    #[trigger] effective.observations[k]).path != key
            }
        }),
{
    let files = sampled_layers(scope, scope_layers(scope), reads)->Ok_0;
    lemma_layers(scope, scope_layers(scope), reads, setting);
    lemma_no_profile(scope, scope_layers(scope), reads);
    let sample = profile_applied(files)->0;
    let values = views_of(scope.cli_overrides@);
    lemma_overrides(sample, values, setting);
    assert forall|i: int| 0 <= i < values.len() implies !sets(
        #[trigger] values[i],
        key_of(setting),
    ) by {
        assert(values[i] == scope.cli_overrides@[i]@);
    }
    lemma_observed(sampled_overrides(sample, values)->0.fields, setting);
}

proof fn lemma_no_profile(
    scope: CodexConfigurationScope,
    files: Seq<LayerView>,
    reads: Seq<LayerRead>,
)
    requires
        files.len() <= reads.len(),
        scope.selection is Root,
        sampled_layers(scope, files, reads) is Ok,
    ensures
        sampled_layers(scope, files, reads)->Ok_0.profile is None,
    decreases files.len(),
{
    if files.len() > 0 {
        lemma_no_profile(scope, files.drop_last(), reads);
    }
}

/// A selected profile counts before the files, in each setting that it has, and leaves the others;
/// it is told as the launch's own.
pub proof fn profiles_count_before_files(
    sample: SampleView,
    table: Map<Seq<char>, TomlNode>,
    content: Seq<char>,
    setting: Setting,
)
    requires
        collected(no_fields(), table, ConfigLayerV1::Launch, content) is Some,
        sample.profile == Some(
            (collected(no_fields(), table, ConfigLayerV1::Launch, content)->0, table),
        ),
        profile_applied(sample) is Some,
    ensures
        ({
            let after = profile_applied(sample)->0;
            let key = key_of(setting);
            &&& table.contains_key(key) ==> chosen(after.fields, setting) == Some(
                FieldFact {
                    layer: ConfigLayerV1::Launch,
                    value: text_of(table[key]),
                    digest: content,
                },
            ) && after.entries.contains_key(key) && after.entries[key] == table[key]
            &&& !table.contains_key(key) ==> chosen(after.fields, setting) == chosen(
                sample.fields,
                setting,
            ) && (after.entries.contains_key(key) <==> sample.entries.contains_key(key))
        }),
{
    lemma_collected(no_fields(), table, ConfigLayerV1::Launch, content, setting);
    lemma_merged(sample.entries, table, setting);
}

/// The profile of a name is its table under the profiles, and may bring no providers of its own.
pub proof fn profiles_bring_no_providers(entries: Map<Seq<char>, TomlNode>, name: Seq<char>)
    ensures
        profile_table(entries, name) matches Some(table) ==> {
            &&& name.len() > 0
            &&& entries.contains_key("profiles"@) && entries["profiles"@] is Entries
            &&& entries["profiles"@]->Entries_0.contains_key(name)
            &&& entries["profiles"@]->Entries_0[name] == TomlNode::Entries(table)
            &&& !table.contains_key("model_providers"@)
        },
{
    reveal_with_fuel(walk, 4);
    let path = seq!["profiles"@, name];
    assert(path[0] == "profiles"@);
    assert(path.skip(1) =~= seq![name]);
    assert(path.skip(1)[0] == name);
    assert(path.skip(1).skip(1) =~= Seq::<Seq<char>>::empty());
}

/// Only the settings of model selection enter the effective configuration: a file's other settings
/// do not.
pub proof fn only_selection_is_merged(
    target: Map<Seq<char>, TomlNode>,
    source: Map<Seq<char>, TomlNode>,
    key: Seq<char>,
)
    ensures
        !(key == "model"@ || key == "model_provider"@ || key == "model_providers"@ || key
            == "model_catalog_json"@ || key == "model_context_window"@ || key
            == "model_auto_compact_token_limit"@ || key == "model_reasoning_effort"@) ==> {
            &&& merged(target, source, 0).contains_key(key) <==> target.contains_key(key)
            &&& target.contains_key(key) ==> merged(target, source, 0)[key] == target[key]
        },
        (key == "model_providers"@ || key == "model_reasoning_effort"@) && source.contains_key(key)
            && !(target.contains_key(key) && target[key] is Entries && source[key] is Entries)
            ==> merged(target, source, 0).contains_key(key) && merged(target, source, 0)[key]
            == source[key],
{
}

/// Providers of two layers stand beside each other; of a provider that both have, each setting is
/// the later layer's where that has it, and else the earlier one's.
pub proof fn providers_are_merged(
    target: Map<Seq<char>, TomlNode>,
    source: Map<Seq<char>, TomlNode>,
    provider: Seq<char>,
    key: Seq<char>,
    a: Map<Seq<char>, TomlNode>,
    b: Map<Seq<char>, TomlNode>,
)
    requires
        target.contains_key("model_providers"@) && target["model_providers"@] is Entries,
        source.contains_key("model_providers"@) && source["model_providers"@] is Entries,
        target["model_providers"@]->Entries_0.contains_key(provider),
        target["model_providers"@]->Entries_0[provider] == TomlNode::Entries(a),
    ensures
        ({
            let after = merged(target, source, 0)["model_providers"@];
            let later = source["model_providers"@]->Entries_0;
            &&& after is Entries && after->Entries_0.contains_key(provider)
            &&& !later.contains_key(provider) ==> after->Entries_0[provider] == TomlNode::Entries(a)
            &&& later.contains_key(provider) && later[provider] == TomlNode::Entries(b) ==> (
            after->Entries_0[provider] matches TomlNode::Entries(c) && {
                &&& b.contains_key(key) && !(b[key] is Entries) ==> c.contains_key(key) && c[key]
                    == b[key]
                &&& !b.contains_key(key) ==> (c.contains_key(key) <==> a.contains_key(key)) && (
                a.contains_key(key) ==> c[key] == a[key])
            })
        }),
{
    let x = target["model_providers"@]->Entries_0;
    let y = source["model_providers"@]->Entries_0;
    let all = merged(target, source, 0);
    assert(all.contains_key("model_providers"@));
    assert(all["model_providers"@] == merged_node(target, source, 0, "model_providers"@));
    assert(all["model_providers"@] == TomlNode::Entries(merged(x, y, 1)));
    assert(merged(x, y, 1).contains_key(provider));
    assert(merged(x, y, 1)[provider] == merged_node(x, y, 1, provider));
    if y.contains_key(provider) && y[provider] == TomlNode::Entries(b) {
        assert(merged(x, y, 1)[provider] == TomlNode::Entries(merged(a, b, 2)));
        let c = merged(a, b, 2);
        if c.contains_key(key) {
            assert(c[key] == merged_node(a, b, 2, key));
        }
    }
}

/// Whether an edit of a scope decides what it sets: nothing nearer than the layer that it writes to
/// says anything of the model, the provider or the catalog. An edit of the user's file is outdone
/// by the process, the launch and a project; an edit of a profile by the process alone.
pub proof fn edits_decide_unless_something_nearer_does(
    scope: CodexConfigurationScope,
    reads: Seq<LayerRead>,
    k: int,
)
    requires
        effective_configuration(scope, reads) is Ok,
    ensures
        ({
            let effective = effective_configuration(scope, reads)->Ok_0;
            let said = effective.observations[k];
            let selects = said.path == "model"@ || said.path == "model_provider"@ || said.path
                == "model_catalog_json"@;
            let whole = scope.selection is Root && scope.selected_profile_file is None;
            &&& 0 <= k < effective.observations.len() && selects && (said.layer is Process || (whole
                && (said.layer is Launch || said.layer is Project)))
                ==> !effective.writable_selection
            &&& (forall|i: int|
                0 <= i < effective.observations.len() ==> (
                #[trigger] effective.observations[i]).layer is User
                    || effective.observations[i].layer is Managed) ==> effective.writable_selection
        }),
{
    let sample = profile_applied(sampled_layers(scope, scope_layers(scope), reads)->Ok_0)->0;
    let last = sampled_overrides(sample, views_of(scope.cli_overrides@))->0;
    lemma_observed(last.fields, Setting::Model);
    lemma_observed(last.fields, Setting::Provider);
    lemma_observed(last.fields, Setting::Catalog);
    let all = effective_configuration(scope, reads)->Ok_0.observations;
    assert(all == observed_fields(last.fields));
    if forall|i: int|
        0 <= i < all.len() ==> (#[trigger] all[i]).layer is User || all[i].layer is Managed {
        lemma_far(last.fields, all, Setting::Model);
        lemma_far(last.fields, all, Setting::Provider);
        lemma_far(last.fields, all, Setting::Catalog);
    }
}

proof fn lemma_far(fields: SelectedView, all: Seq<ObservationView>, setting: Setting)
    requires
        all == observed_fields(fields),
        forall|i: int|
            0 <= i < all.len() ==> (#[trigger] all[i]).layer is User || all[i].layer is Managed,
    ensures
        chosen(fields, setting) matches Some(fact) ==> fact.layer is User || fact.layer is Managed,
{
    lemma_observed(fields, setting);
    if let Some(fact) = chosen(fields, setting) {
        let entry = told(setting, fact.layer, fact.value, fact.digest);
        let k = choose|k: int| 0 <= k < all.len() && all[k] == entry;
        assert(all[k].layer is User || all[k].layer is Managed);
    }
}

/// A scope that names too much, selects a profile in two ways, or has its user's file elsewhere than
/// in its home, is not sampled.
pub proof fn odd_scopes_are_not_sampled(scope: CodexConfigurationScope, reads: Seq<LayerRead>)
    ensures
        scope.trusted_project_files@.len() > 32 || scope.cli_overrides@.len() > 64 || (
        scope.selected_profile_file is Some && scope.selection is LegacyProfile)
            ==> effective_configuration(scope, reads) == Err::<EffectiveView, _>(
            AgentFilesystemScanError::InvalidConfig,
        ),
        effective_configuration(scope, reads) is Ok && scope.selection is LegacyProfile
            ==> sampled_layers(scope, scope_layers(scope), reads)->Ok_0.profile is Some,
{
}

/// A configuration sets a window of its own by either of two settings.
pub proof fn windows_are_set_by_two_settings(entries: Map<Seq<char>, TomlNode>)
    ensures
        overrides_context(entries) <==> entries.contains_key("model_context_window"@)
            || entries.contains_key("model_auto_compact_token_limit"@),
{
}

} // verus!
