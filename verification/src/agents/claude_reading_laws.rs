//! What is read of ClaudeCode's settings, variable by variable, and what the sources say together.

use vstd::prelude::*;
use crate::agents::claude_capabilities::{
    candidate_fault, candidates_fault, claude_plan_capability_preview, claude_requirements,
    ClaudeClientCapabilityPreviewV1, ClaudePlan, MessagesProfile,
};
use crate::agents::claude_config::Members;
use crate::agents::claude_observation::{
    claude_context_override, claude_explicit_model_selection, claude_native_routing_conflict,
    claude_user_config_document, deciding, has_field, observed_view, overrides_context, paired,
    routes, same_layer_secret_conflict, select_effective, user_source, SettingsField,
};
use crate::agents::claude_settings::{
    explicit_environment_name, maybe_text, member_named, names_in, pairs_in, pairs_view,
    process_context, process_settings, process_value, read_settings, settings_form, told_besides,
    told_names, variable_is_text, variable_of, variables_read, ClaudeSettingsSubset, MemberView,
    ObservedClaudeSettings, SettingsDocument, SettingsForm, SettingsMember, VariablesView,
};
use crate::agents::codex_catalog_plan::{CapabilityVerdict, RequestCapabilityRequirements};
use crate::agents::discovery::{AgentKindV1, ConfigLayerV1};
use crate::agents::filesystem::AgentFilesystemScanError;
use crate::json::{object_view, Json, JsonView};
use crate::runtime::facts::IngressProtocol;
use crate::text::{
    after_prefix, before_suffix, byte_len, in_order, is_alphanumeric, ordered_lists_hold_the_same,
    views_of,
};

verus! {

pub open spec fn text_of(text: Option<String>) -> Option<Seq<char>> {
    match text {
        Some(text) => Some(text@),
        None => None,
    }
}

/// Whether the presence of a variable is told.
pub open spec fn is_told(name: Seq<char>) -> bool {
    name == "ANTHROPIC_API_KEY"@ || name == "ANTHROPIC_AUTH_TOKEN"@ || name == "ANTHROPIC_BASE_URL"@ || name == "ANTHROPIC_CUSTOM_HEADERS"@ || name == "ANTHROPIC_DEFAULT_HAIKU_MODEL"@ || name == "ANTHROPIC_DEFAULT_OPUS_MODEL"@ || name == "ANTHROPIC_DEFAULT_SONNET_MODEL"@ || name == "ANTHROPIC_MODEL"@ || name == "ANTHROPIC_SMALL_FAST_MODEL"@ || name == "CLAUDE_CODE_USE_BEDROCK"@ || name == "CLAUDE_CODE_USE_FOUNDRY"@ || name == "CLAUDE_CODE_USE_VERTEX"@
}

/// Whether a list says something of a name last at a place.
pub open spec fn is_last(variables: Seq<(String, Option<String>)>, name: Seq<char>, k: int) -> bool {
    0 <= k < variables.len() && variables[k].0@ == name && forall|j: int|
        k < j < variables.len() ==> (#[trigger] variables[j]).0@ != name
}

pub open spec fn is_named(variables: Seq<(String, Option<String>)>, name: Seq<char>) -> bool {
    exists|k: int| 0 <= k < variables.len() && (#[trigger] variables[k]).0@ == name
}

proof fn lemma_last(variables: Seq<(String, Option<String>)>, name: Seq<char>)
    ensures
        is_named(variables, name) <==> variable_of(variables_read(variables), name) is Some,
        forall|k: int|
            #![trigger is_last(variables, name, k)]
            is_last(variables, name, k) ==> variable_of(variables_read(variables), name) == Some(
                text_of(variables[k].1),
            ),
    decreases variables.len(),
{
    let read = variables_read(variables);
    if variables.len() > 0 {
        let init = variables.drop_last();
        lemma_last(init, name);
        assert(variables_read(init) =~= read.drop_last());
        assert(read.last() == (variables.last().0@, maybe_text(variables.last().1)));
        assert(variables[variables.len() - 1] == variables.last());
        assert forall|k: int| 0 <= k < init.len() implies init[k] == #[trigger] variables[k] by {}
        if is_named(variables, name) && variables.last().0@ != name {
            let k = choose|k: int| 0 <= k < variables.len() && (#[trigger] variables[k]).0@ == name;
            assert(init[k].0@ == name);
        }
        if is_named(init, name) {
            let k = choose|k: int| 0 <= k < init.len() && (#[trigger] init[k]).0@ == name;
            assert(variables[k].0@ == name);
        }
        assert forall|k: int|
            #![trigger is_last(variables, name, k)]
            is_last(variables, name, k) implies variable_of(read, name) == Some(
            text_of(variables[k].1),
        ) by {
            if k < variables.len() - 1 {
                assert(variables[variables.len() - 1].0@ != name);
                assert(is_last(init, name, k)) by {
                    assert forall|j: int| k < j < init.len() implies (#[trigger] init[j]).0@
                        != name by {
                        assert(variables[j].0@ != name);
                    }
                }
            }
        }
    }
}

proof fn lemma_member(document: SettingsDocument, name: Seq<char>)
    ensures
        (exists|k: int| 0 <= k < document.members@.len() && (#[trigger] document.members@[k]).0@
            == name) <==> member_named(document@, name) is Some,
        forall|k: int|
            0 <= k < document.members@.len() && (#[trigger] document.members@[k]).0@ == name && (
            forall|j: int| 0 <= j < k ==> (#[trigger] document.members@[j]).0@ != name)
                ==> member_named(document@, name) == Some(document.members@[k].1@),
    decreases document.members@.len(),
{
    lemma_member_in(document@, name);
    let all = document.members@;
    assert(document@.len() == all.len());
    assert forall|k: int| 0 <= k < all.len() implies document@[k] == ((#[trigger] all[k]).0@,
        all[k].1@) by {}
    if member_named(document@, name) is Some {
        let k = choose|k: int| 0 <= k < document@.len() && (#[trigger] document@[k]).0 == name;
        assert(all[k].0@ == name);
    }
    if exists|k: int| 0 <= k < all.len() && (#[trigger] all[k]).0@ == name {
        let k = choose|k: int| 0 <= k < all.len() && (#[trigger] all[k]).0@ == name;
        assert(document@[k].0 == name);
    }
    assert forall|k: int|
        0 <= k < all.len() && (#[trigger] all[k]).0@ == name && (forall|j: int|
            0 <= j < k ==> (#[trigger] all[j]).0@ != name) implies member_named(document@, name)
        == Some(all[k].1@) by {
        assert forall|j: int| 0 <= j < k implies (#[trigger] document@[j]).0 != name by {
            assert(all[j].0@ != name);
        }
        assert(document@[k].0 == name);
    }
}

proof fn lemma_member_in(document: Seq<(Seq<char>, MemberView)>, name: Seq<char>)
    ensures
        (exists|k: int| 0 <= k < document.len() && (#[trigger] document[k]).0 == name)
            <==> member_named(document, name) is Some,
        forall|k: int|
            0 <= k < document.len() && (#[trigger] document[k]).0 == name && (forall|j: int|
                0 <= j < k ==> (#[trigger] document[j]).0 != name) ==> member_named(document, name)
                == Some(document[k].1),
    decreases document.len(),
{
    if document.len() > 0 {
        let init = document.drop_last();
        lemma_member_in(init, name);
        assert(document[document.len() - 1] == document.last());
        assert forall|k: int| 0 <= k < init.len() implies init[k] == #[trigger] document[k] by {}
        if exists|k: int| 0 <= k < init.len() && (#[trigger] init[k]).0 == name {
            let k = choose|k: int| 0 <= k < init.len() && (#[trigger] init[k]).0 == name;
            assert(document[k].0 == name);
        }
        if exists|k: int| 0 <= k < document.len() && (#[trigger] document[k]).0 == name {
            let k = choose|k: int| 0 <= k < document.len() && (#[trigger] document[k]).0 == name;
            if k < init.len() {
                assert(init[k].0 == name);
            }
        }
        assert forall|k: int|
            0 <= k < document.len() && (#[trigger] document[k]).0 == name && (forall|j: int|
                0 <= j < k ==> (#[trigger] document[j]).0 != name) implies member_named(
            document,
            name,
        ) == Some(document[k].1) by {
            if k < init.len() {
                assert(init[k].0 == name);
                assert forall|j: int| 0 <= j < k implies (#[trigger] init[j]).0 != name by {
                    assert(document[j].0 != name);
                }
            } else {
                if member_named(init, name) is Some {
                    let j = choose|j: int| 0 <= j < init.len() && (#[trigger] init[j]).0 == name;
                    assert(document[j].0 == name);
                }
            }
        }
    }
}

proof fn lemma_told(name: Seq<char>, conflicts: Seq<Seq<char>>)
    ensures
        told_besides(conflicts).contains(name) <==> is_told(name) && !conflicts.contains(name),
{
    let all = told_names();
    let keep = |name: Seq<char>| !conflicts.contains(name);
    if told_besides(conflicts).contains(name) {
        all.lemma_filter_contains_rev(keep, name);
        let k = choose|k: int| 0 <= k < told_besides(conflicts).len() && told_besides(conflicts)[k]
            == name;
        all.lemma_filter_pred(keep, k);
    }
    assert(all[0] == "ANTHROPIC_API_KEY"@);
    assert(all[1] == "ANTHROPIC_AUTH_TOKEN"@);
    assert(all[2] == "ANTHROPIC_BASE_URL"@);
    assert(all[3] == "ANTHROPIC_CUSTOM_HEADERS"@);
    assert(all[4] == "ANTHROPIC_DEFAULT_HAIKU_MODEL"@);
    assert(all[5] == "ANTHROPIC_DEFAULT_OPUS_MODEL"@);
    assert(all[6] == "ANTHROPIC_DEFAULT_SONNET_MODEL"@);
    assert(all[7] == "ANTHROPIC_MODEL"@);
    assert(all[8] == "ANTHROPIC_SMALL_FAST_MODEL"@);
    assert(all[9] == "CLAUDE_CODE_USE_BEDROCK"@);
    assert(all[10] == "CLAUDE_CODE_USE_FOUNDRY"@);
    assert(all[11] == "CLAUDE_CODE_USE_VERTEX"@);
    if is_told(name) && !conflicts.contains(name) {
        let k = choose|k: int| 0 <= k < all.len() && all[k] == name;
        assert(keep(all[k]));
        all.lemma_filter_contains(keep, k);
    }
}

/// What is read of a settings text. Each routing field is what its own variable was last set to,
/// the selected model is the text's own, a helper is told where there is one, and of the
/// variables whose presence is told those are that are set. A variable that bears on the context
/// window counts for that alone.
pub proof fn settings_say_what_is_written(
    document: &SettingsDocument,
    conflicts: &Vec<String>,
    r: Option<ClaudeSettingsSubset>,
    e: int,
    name: Seq<char>,
    k: int,
)
    requires
        call_ensures(read_settings, (document, conflicts), r),
        r is Some,
    ensures
        ({
            let settings = r->0;
            let all = document.members@;
            &&& 0 <= e < all.len() && all[e].0@ == "model"@ ==> (
            all[e].1 matches SettingsMember::Text(text) && text_of(settings.model) == Some(text@))
            &&& (forall|i: int| 0 <= i < all.len() ==> (#[trigger] all[i]).0@ != "model"@)
                ==> settings.model is None
            &&& settings.api_key_helper_present <==> exists|i: int|
                0 <= i < all.len() && (#[trigger] all[i]).0@ == "apiKeyHelper"@
            &&& (forall|i: int| 0 <= i < all.len() ==> (#[trigger] all[i]).0@ != "env"@) ==> {
                &&& settings.env.base_url is None && settings.env.model is None
                &&& settings.env.default_opus_model is None
                &&& settings.env.default_sonnet_model is None
                &&& settings.env.default_haiku_model is None
                &&& settings.env.small_fast_model is None
                &&& settings.env.present_environment_fields@.len() == 0
                &&& settings.env.context_environment@.len() == 0
            }
        }),
        0 <= e < document.members@.len() && document.members@[e].0@ == "env"@ ==> {
            let settings = r->0;
            let variables = document.members@[e].1->Variables_0@;
            let text = text_of(variables[k].1);
            &&& document.members@[e].1 is Variables
            &&& is_last(variables, name, k) && !views_of(conflicts@).contains(name) ==> {
                &&& name == "ANTHROPIC_BASE_URL"@ ==> text_of(settings.env.base_url) == text
                &&& name == "ANTHROPIC_MODEL"@ ==> text_of(settings.env.model) == text
                &&& name == "ANTHROPIC_DEFAULT_OPUS_MODEL"@ ==> text_of(settings.env.default_opus_model) == text
                &&& name == "ANTHROPIC_DEFAULT_SONNET_MODEL"@ ==> text_of(settings.env.default_sonnet_model) == text
                &&& name == "ANTHROPIC_DEFAULT_HAIKU_MODEL"@ ==> text_of(settings.env.default_haiku_model) == text
                &&& name == "ANTHROPIC_SMALL_FAST_MODEL"@ ==> text_of(settings.env.small_fast_model) == text
            }
            &&& !is_named(variables, name) || views_of(conflicts@).contains(name) ==> {
                &&& name == "ANTHROPIC_BASE_URL"@ ==> settings.env.base_url is None
                &&& name == "ANTHROPIC_MODEL"@ ==> settings.env.model is None
                &&& name == "ANTHROPIC_DEFAULT_OPUS_MODEL"@ ==> settings.env.default_opus_model is None
                &&& name == "ANTHROPIC_DEFAULT_SONNET_MODEL"@ ==> settings.env.default_sonnet_model is None
                &&& name == "ANTHROPIC_DEFAULT_HAIKU_MODEL"@ ==> settings.env.default_haiku_model is None
                &&& name == "ANTHROPIC_SMALL_FAST_MODEL"@ ==> settings.env.small_fast_model is None
            }
            &&& views_of(settings.env.present_environment_fields@).contains(name) <==> is_told(name)
                && is_named(variables, name) && !views_of(conflicts@).contains(name)
        },
{
    let settings = r->0;
    let all = document.members@;
    lemma_member(*document, "model"@);
    lemma_member(*document, "env"@);
    lemma_member(*document, "apiKeyHelper"@);
    assert(settings@.env.present == views_of(settings.env.present_environment_fields@));
    assert(settings@.env.present.len() == settings.env.present_environment_fields@.len());
    assert(settings@.env.context.len() == settings.env.context_environment@.len());
    if 0 <= e < all.len() && (all[e].0@ == "model"@ || all[e].0@ == "env"@) {
        let own = all[e].0@;
        assert(document@[e] == (all[e].0@, all[e].1@));
        assert forall|j: int| 0 <= j < e implies (#[trigger] all[j]).0@ != own by {
            if all[j].0@ == own {
                assert(document@[j].0 == own && document@[e].0 == own);
            }
        }
        assert(member_named(document@, own) == Some(all[e].1@));
        if own == "env"@ {
            let variables = all[e].1->Variables_0@;
            let read = variables_read(variables);
            lemma_last(variables, name);
            lemma_told(name, views_of(conflicts@));
            lemma_names_in(read, told_besides(views_of(conflicts@)), name);
            if is_last(variables, name, k) {
                assert(variables[k].0@ == name);
                assert(is_named(variables, name));
            }
        }
    }
}

proof fn lemma_names_in(variables: VariablesView, names: Seq<Seq<char>>, name: Seq<char>)
    ensures
        names_in(variables, names).contains(name) <==> names.contains(name) && variable_of(
            variables,
            name,
        ) is Some,
{
    let keep = |name: Seq<char>| variable_of(variables, name) is Some;
    if names_in(variables, names).contains(name) {
        names.lemma_filter_contains_rev(keep, name);
        let k = choose|k: int| 0 <= k < names_in(variables, names).len() && names_in(
            variables,
            names,
        )[k] == name;
        names.lemma_filter_pred(keep, k);
    }
    if names.contains(name) && variable_of(variables, name) is Some {
        let k = choose|k: int| 0 <= k < names.len() && names[k] == name;
        assert(keep(names[k]));
        names.lemma_filter_contains(keep, k);
    }
}

/// Each variable that bears on the context window is told with what it was last set to, where it is
/// set.
pub proof fn window_variables_are_told(
    document: &SettingsDocument,
    conflicts: &Vec<String>,
    r: Option<ClaudeSettingsSubset>,
    e: int,
    name: Seq<char>,
    k: int,
)
    requires
        call_ensures(read_settings, (document, conflicts), r),
        r is Some,
        0 <= e < document.members@.len(),
        document.members@[e].0@ == "env"@,
        document.members@[e].1 is Variables,
        is_last(document.members@[e].1->Variables_0@, name, k),
    ensures
        views_of(conflicts@).contains(name) ==> document.members@[e].1->Variables_0@[k].1 is Some
            && pairs_view(r->0.env.context_environment@).contains(
            (name, document.members@[e].1->Variables_0@[k].1->0@),
        ),
        !views_of(conflicts@).contains(name) ==> forall|text: Seq<char>| !(#[trigger] pairs_view(
            r->0.env.context_environment@,
        ).contains((name, text))),
{
    let all = document.members@;
    lemma_member(*document, "env"@);
    assert(document@[e] == (all[e].0@, all[e].1@));
    assert forall|j: int| 0 <= j < e implies (#[trigger] all[j]).0@ != "env"@ by {
        if all[j].0@ == "env"@ {
            assert(document@[j].0 == "env"@ && document@[e].0 == "env"@);
        }
    }
    let variables = all[e].1->Variables_0@;
    let read = variables_read(variables);
    lemma_last(variables, name);
    assert(variables[k].0@ == name);
    assert(is_named(variables, name));
    let order = in_order(views_of(conflicts@));
    ordered_lists_hold_the_same(views_of(conflicts@));
    lemma_names_in(read, order, name);
    let names = names_in(read, order);
    let pairs = pairs_in(read, order);
    assert(pairs == r->0@.env.context);
    if views_of(conflicts@).contains(name) {
        let i = choose|i: int| 0 <= i < names.len() && names[i] == name;
        assert(pairs[i] == (name, variable_of(read, name)->0->0));
        assert(read[k] == (variables[k].0@, maybe_text(variables[k].1)));
    } else {
        assert forall|text: Seq<char>| !(#[trigger] pairs.contains((name, text))) by {
            if pairs.contains((name, text)) {
                let i = choose|i: int| 0 <= i < pairs.len() && pairs[i] == (name, text);
                assert(names[i] == name);
            }
        }
    }
}

/// A settings text that names its model or its environment twice, or has either in another form, is
/// not read; nor is one with a routing variable that is no text.
pub proof fn ambiguous_settings_are_not_read(
    document: &SettingsDocument,
    conflicts: &Vec<String>,
    r: Option<ClaudeSettingsSubset>,
    i: int,
    j: int,
    k: int,
)
    requires
        call_ensures(read_settings, (document, conflicts), r),
        0 <= i < document.members@.len(),
        document.members@[i].0@ == "model"@ || document.members@[i].0@ == "env"@,
    ensures
        i < j < document.members@.len() && document.members@[j].0@ == document.members@[i].0@ ==> r
            is None,
        document.members@[i].0@ == "model"@ && !(document.members@[i].1 is Text) ==> r is None,
        document.members@[i].0@ == "env"@ && !(document.members@[i].1 is Variables) ==> r is None,
        document.members@[i].0@ == "env"@ && (
        document.members@[i].1 matches SettingsMember::Variables(variables) && 0 <= k
            < variables@.len() && variables@[k].1 is None && (views_of(conflicts@).contains(
            variables@[k].0@,
        ) || variables@[k].0@ == "ANTHROPIC_BASE_URL"@ || variables@[k].0@ == "ANTHROPIC_MODEL"@
            || variables@[k].0@ == "ANTHROPIC_DEFAULT_OPUS_MODEL"@ || variables@[k].0@
            == "ANTHROPIC_DEFAULT_SONNET_MODEL"@ || variables@[k].0@
            == "ANTHROPIC_DEFAULT_HAIKU_MODEL"@ || variables@[k].0@
            == "ANTHROPIC_SMALL_FAST_MODEL"@)) ==> r is None,
{
    let all = document.members@;
    let own = all[i].0@;
    assert(document@[i] == (all[i].0@, all[i].1@));
    if i < j < all.len() && all[j].0@ == own {
        assert(document@[j].0 == own && document@[i].0 == own);
    }
    if r is Some {
        lemma_member(*document, own);
        assert forall|x: int| 0 <= x < i implies (#[trigger] all[x]).0@ != own by {
            if all[x].0@ == own {
                assert(document@[x].0 == own && document@[i].0 == own);
            }
        }
        if let SettingsMember::Variables(variables) = all[i].1 {
            if 0 <= k < variables@.len() {
                let read = variables_read(variables@);
                assert(read[k] == (variables@[k].0@, maybe_text(variables@[k].1)));
            }
        }
    }
}

/// The form that a member is read in: the model is a text, the environment holds variables, and
/// nothing else is read; of the variables, those of routing and of the window are texts.
pub proof fn only_what_counts_is_read(
    name: &str,
    conflicts: &Vec<String>,
    form: SettingsForm,
    is_text: bool,
)
    requires
        call_ensures(settings_form, (name,), form),
        call_ensures(variable_is_text, (name, conflicts), is_text),
    ensures
        form is Text <==> name@ == "model"@,
        form is Variables <==> name@ == "env"@,
        is_text <==> views_of(conflicts@).contains(name@) || name@ == "ANTHROPIC_BASE_URL"@ || name@
            == "ANTHROPIC_MODEL"@ || name@ == "ANTHROPIC_DEFAULT_OPUS_MODEL"@ || name@
            == "ANTHROPIC_DEFAULT_SONNET_MODEL"@ || name@ == "ANTHROPIC_DEFAULT_HAIKU_MODEL"@
            || name@ == "ANTHROPIC_SMALL_FAST_MODEL"@,
{
    reveal_strlit("model");
    reveal_strlit("env");
    assert("model"@.len() == 5 && "env"@.len() == 3);
}

/// What a process sets a variable to: the first value under its name.
pub open spec fn first_of(process: Seq<(String, String)>, name: Seq<char>) -> Option<Seq<char>> {
    if exists|k: int| is_first(process, name, k) {
        Some(process[choose|k: int| is_first(process, name, k)].1@)
    } else {
        None
    }
}

pub open spec fn is_first(process: Seq<(String, String)>, name: Seq<char>, k: int) -> bool {
    0 <= k < process.len() && process[k].0@ == name && forall|j: int|
        0 <= j < k ==> (#[trigger] process[j]).0@ != name
}

proof fn lemma_first(process: Seq<(String, String)>, name: Seq<char>)
    ensures
        process_value(pairs_view(process), name) == first_of(process, name),
    decreases process.len(),
{
    let pairs = pairs_view(process);
    if process.len() == 0 {
        assert(pairs.len() == 0);
    } else if process[0].0@ == name {
        assert(pairs[0] == (process[0].0@, process[0].1@));
        assert(is_first(process, name, 0));
        let k = choose|k: int| is_first(process, name, k);
        if k > 0 {
            assert(process[0].0@ != name);
        }
    } else {
        let rest = process.skip(1);
        lemma_first(rest, name);
        assert(pairs_view(rest) =~= pairs.skip(1));
        assert(pairs[0] == (process[0].0@, process[0].1@));
        assert forall|k: int| 0 <= k < rest.len() implies rest[k] == #[trigger] process[k + 1] by {}
        if exists|k: int| is_first(rest, name, k) {
            let k = choose|k: int| is_first(rest, name, k);
            assert(is_first(process, name, k + 1)) by {
                assert forall|j: int| 0 <= j < k + 1 implies (#[trigger] process[j]).0@ != name by {
                    if j > 0 {
                        assert(rest[j - 1].0@ != name);
                    }
                }
            }
            let l = choose|l: int| is_first(process, name, l);
            if l < k + 1 {
                assert(process[l].0@ != name);
            } else if l > k + 1 {
                assert(process[k + 1].0@ != name);
            }
        }
        if exists|l: int| is_first(process, name, l) {
            let l = choose|l: int| is_first(process, name, l);
            assert(is_first(rest, name, l - 1)) by {
                assert forall|j: int| 0 <= j < l - 1 implies (#[trigger] rest[j]).0@ != name by {
                    assert(process[j + 1].0@ != name);
                }
            }
        }
    }
}

/// Each field that is read of a process is its own variable; a process selects no model beside its
/// variable and has no helper.
pub proof fn processes_say_what_they_set(
    process: &Vec<(String, String)>,
    presence: &Vec<String>,
    conflicts: &Vec<String>,
    r: ClaudeSettingsSubset,
    name: Seq<char>,
)
    requires
        call_ensures(process_settings, (process, presence, conflicts), r),
    ensures
        name == "ANTHROPIC_BASE_URL"@ ==> text_of(r.env.base_url) == first_of(process@, name),
        name == "ANTHROPIC_MODEL"@ ==> text_of(r.env.model) == first_of(process@, name),
        name == "ANTHROPIC_DEFAULT_OPUS_MODEL"@ ==> text_of(r.env.default_opus_model) == first_of(process@, name),
        name == "ANTHROPIC_DEFAULT_SONNET_MODEL"@ ==> text_of(r.env.default_sonnet_model) == first_of(process@, name),
        name == "ANTHROPIC_DEFAULT_HAIKU_MODEL"@ ==> text_of(r.env.default_haiku_model) == first_of(process@, name),
        name == "ANTHROPIC_SMALL_FAST_MODEL"@ ==> text_of(r.env.small_fast_model) == first_of(process@, name),
        r.model is None,
        !r.api_key_helper_present,
        views_of(r.env.present_environment_fields@).contains(name) <==> views_of(
            presence@,
        ).contains(name),
        forall|text: Seq<char>| #[trigger]
            pairs_view(r.env.context_environment@).contains((name, text)) <==> views_of(
                conflicts@,
            ).contains(name) && first_of(process@, name) == Some(text),
{
    lemma_first(process@, name);
    ordered_lists_hold_the_same(views_of(presence@));
    ordered_lists_hold_the_same(views_of(conflicts@));
    assert(r@.env.present == views_of(r.env.present_environment_fields@));
    let pairs = pairs_view(process@);
    let order = in_order(views_of(conflicts@));
    let keep = |name: Seq<char>| process_value(pairs, name) is Some;
    let kept = order.filter(keep);
    let told = process_context(pairs, views_of(conflicts@));
    assert(told == pairs_view(r.env.context_environment@));
    assert forall|text: Seq<char>| #[trigger]
        told.contains((name, text)) <==> order.contains(name) && process_value(pairs, name) == Some(
            text,
        ) by {
        if told.contains((name, text)) {
            let i = choose|i: int| 0 <= i < told.len() && told[i] == (name, text);
            assert(kept[i] == name);
            assert(kept.contains(name));
            order.lemma_filter_contains_rev(keep, name);
            order.lemma_filter_pred(keep, i);
        }
        if order.contains(name) && process_value(pairs, name) == Some(text) {
            let k = choose|k: int| 0 <= k < order.len() && order[k] == name;
            assert(keep(order[k]));
            order.lemma_filter_contains(keep, k);
            let i = choose|i: int| 0 <= i < kept.len() && kept[i] == name;
            assert(told[i] == (name, text));
        }
    }
}

/// The order in which the layers count: for ClaudeCode what an administrator manages goes first;
/// the process goes before the launch, the launch before the project, the project before the user.
/// For Codex what is managed goes last.
pub proof fn nearer_layers_count_first(kind: AgentKindV1)
    ensures
        ConfigLayerV1::Process.rank_for(kind) < ConfigLayerV1::Launch.rank_for(kind),
        ConfigLayerV1::Launch.rank_for(kind) < ConfigLayerV1::Project.rank_for(kind),
        ConfigLayerV1::Project.rank_for(kind) < ConfigLayerV1::User.rank_for(kind),
        kind is ClaudeCode ==> ConfigLayerV1::Managed.rank_for(kind)
            < ConfigLayerV1::Process.rank_for(kind),
        kind is Codex ==> ConfigLayerV1::User.rank_for(kind) < ConfigLayerV1::Managed.rank_for(
            kind,
        ),
{
}

/// What a source says of a field.
pub open spec fn says(observed: ObservedClaudeSettings, field: SettingsField) -> Option<Seq<char>> {
    match field {
        SettingsField::BaseUrl => text_of(observed.settings.env.base_url),
        SettingsField::EnvironmentModel => text_of(observed.settings.env.model),
        SettingsField::DefaultOpusModel => text_of(observed.settings.env.default_opus_model),
        SettingsField::SelectedModel => text_of(observed.settings.model),
    }
}

/// Whether a source counts for a field; for the credential where no field is named.
pub open spec fn counts(observed: ObservedClaudeSettings, field: Option<SettingsField>) -> bool {
    match field {
        Some(field) => says(observed, field) is Some,
        None => views_of(observed.settings.env.present_environment_fields@).contains(
            "ANTHROPIC_AUTH_TOKEN"@,
        ),
    }
}

/// Whether the source at a place decides a field: it counts, none that counts is of a nearer layer,
/// and none before it is of its own.
pub open spec fn decides(
    values: Seq<ObservedClaudeSettings>,
    field: Option<SettingsField>,
    at: int,
) -> bool {
    let kind = AgentKindV1::ClaudeCode;
    &&& 0 <= at < values.len()
    &&& counts(values[at], field)
    &&& forall|i: int|
        0 <= i < values.len() && counts(#[trigger] values[i], field) ==> values[at].layer.rank_for(
            kind,
        ) <= values[i].layer.rank_for(kind)
    &&& forall|i: int|
        0 <= i < at && counts(#[trigger] values[i], field) ==> values[at].layer.rank_for(kind)
            < values[i].layer.rank_for(kind)
}

proof fn lemma_decides(values: Seq<ObservedClaudeSettings>, field: Option<SettingsField>)
    ensures
        match deciding(observed_view(values), field) {
            Some(at) => decides(values, field, at),
            None => forall|i: int| 0 <= i < values.len() ==> !counts(#[trigger] values[i], field),
        },
    decreases values.len(),
{
    if values.len() > 0 {
        let init = values.drop_last();
        let all = observed_view(values);
        lemma_decides(init, field);
        assert(observed_view(init) =~= all.drop_last());
        assert(all.last() == values.last()@);
        assert(values[values.len() - 1] == values.last());
        assert(counts(values.last(), field) == has_field(all.last(), field));
        assert forall|i: int| 0 <= i < init.len() implies init[i] == #[trigger] values[i] by {}
        assert forall|i: int| 0 <= i < values.len() implies all[i] == (#[trigger] values[i])@ by {}
        match deciding(all, field) {
            Some(at) => {
                assert(0 <= at < values.len());
                assert(counts(values[at], field));
                assert forall|i: int|
                    0 <= i < values.len() && counts(#[trigger] values[i], field) implies
                    values[at].layer.rank_for(AgentKindV1::ClaudeCode) <= values[i].layer.rank_for(
                    AgentKindV1::ClaudeCode,
                ) by {
                    if i < init.len() {
                        assert(counts(init[i], field));
                    }
                }
                assert forall|i: int|
                    0 <= i < at && counts(#[trigger] values[i], field) implies
                    values[at].layer.rank_for(AgentKindV1::ClaudeCode) < values[i].layer.rank_for(
                    AgentKindV1::ClaudeCode,
                ) by {
                    assert(counts(init[i], field));
                }
            },
            None => {
                assert forall|i: int| 0 <= i < values.len() implies !counts(
                    #[trigger] values[i],
                    field,
                ) by {
                    if i < init.len() {
                        assert(!counts(init[i], field));
                    }
                }
            },
        }
    }
}

/// A field is decided by the nearest source that has it, and by none where none has.
pub proof fn the_nearest_source_decides(
    values: &Vec<ObservedClaudeSettings>,
    field: Option<SettingsField>,
    r: Option<usize>,
)
    requires
        call_ensures(select_effective, (values, field), r),
    ensures
        match r {
            Some(at) => decides(values@, field, at as int),
            None => forall|i: int| 0 <= i < values@.len() ==> !counts(#[trigger] values@[i], field),
        },
{
    lemma_decides(values@, field);
}

/// The model that the sources select is that of the variable, as its nearest source sets it, and
/// only where no source sets the variable the selection of the nearest file.
pub proof fn variables_select_before_files(
    values: &Vec<ObservedClaudeSettings>,
    r: Option<String>,
    at: int,
)
    requires
        call_ensures(claude_explicit_model_selection, (values,), r),
    ensures
        decides(values@, Some(SettingsField::EnvironmentModel), at) ==> text_of(r) == text_of(
            values@[at].settings.env.model,
        ),
        (forall|i: int|
            0 <= i < values@.len() ==> (#[trigger] values@[i]).settings.env.model is None)
            && decides(values@, Some(SettingsField::SelectedModel), at) ==> text_of(r) == text_of(
            values@[at].settings.model,
        ),
        (forall|i: int|
            0 <= i < values@.len() ==> (#[trigger] values@[i]).settings.env.model is None
                && values@[i].settings.model is None) ==> r is None,
{
    let all = observed_view(values@);
    assert forall|i: int| 0 <= i < values@.len() implies all[i] == (#[trigger] values@[i])@ by {}
    lemma_decides(values@, Some(SettingsField::EnvironmentModel));
    lemma_decides(values@, Some(SettingsField::SelectedModel));
    if let Some(k) = deciding(all, Some(SettingsField::EnvironmentModel)) {
        assert(counts(values@[k], Some(SettingsField::EnvironmentModel)));
        if decides(values@, Some(SettingsField::EnvironmentModel), at) {
            lemma_one_decides(values@, Some(SettingsField::EnvironmentModel), at, k);
        }
    } else if decides(values@, Some(SettingsField::EnvironmentModel), at) {
        assert(!counts(values@[at], Some(SettingsField::EnvironmentModel)));
    }
    if let Some(k) = deciding(all, Some(SettingsField::SelectedModel)) {
        assert(counts(values@[k], Some(SettingsField::SelectedModel)));
        if decides(values@, Some(SettingsField::SelectedModel), at) {
            lemma_one_decides(values@, Some(SettingsField::SelectedModel), at, k);
        }
    } else if decides(values@, Some(SettingsField::SelectedModel), at) {
        assert(!counts(values@[at], Some(SettingsField::SelectedModel)));
    }
}

proof fn lemma_one_decides(
    values: Seq<ObservedClaudeSettings>,
    field: Option<SettingsField>,
    a: int,
    b: int,
)
    requires
        decides(values, field, a),
        decides(values, field, b),
    ensures
        a == b,
{
    assert(counts(values[a], field) && counts(values[b], field));
}

/// An edit of the user's file does not decide the context window where another source sets one of
/// its variables, or any source sets one that the edit does not own.
pub proof fn other_windows_override(values: &Vec<ObservedClaudeSettings>, r: bool)
    requires
        call_ensures(claude_context_override, (values,), r),
    ensures
        r <==> exists|i: int, k: int|
            0 <= i < values@.len() && 0 <= k < values@[i].settings.env.context_environment@.len()
                && #[trigger] outranks(values@[i], k),
{
    let all = observed_view(values@);
    assert forall|i: int| 0 <= i < values@.len() implies all[i] == (#[trigger] values@[i])@ by {}
    if r {
        let i = choose|i: int| 0 <= i < values@.len() && overrides_context(#[trigger] all[i]);
        let context = all[i].settings.env.context;
        assert(context == pairs_view(values@[i].settings.env.context_environment@));
        if all[i].layer != ConfigLayerV1::User && context.len() > 0 {
            assert(outranks(values@[i], 0));
        } else {
            let k = choose|k: int|
                0 <= k < context.len()
                    && !crate::agents::claude_config::is_context_variable((#[trigger] context[k]).0);
            assert(outranks(values@[i], k));
        }
    }
    if exists|i: int, k: int|
        0 <= i < values@.len() && 0 <= k < values@[i].settings.env.context_environment@.len()
            && #[trigger] outranks(values@[i], k) {
        let (i, k) = choose|i: int, k: int|
            0 <= i < values@.len() && 0 <= k < values@[i].settings.env.context_environment@.len()
                && #[trigger] outranks(values@[i], k);
        let context = all[i].settings.env.context;
        assert(context[k].0 == values@[i].settings.env.context_environment@[k].0@);
        assert(overrides_context(observed_view(values@)[i]));
        assert(exists|x: int|
            0 <= x < values@.len() && overrides_context(#[trigger] observed_view(values@)[x]));
    }
}

/// Whether a variable of a source bears on the context window beside an edit of the user's file.
pub open spec fn outranks(observed: ObservedClaudeSettings, k: int) -> bool {
    let name = observed.settings.env.context_environment@[k].0@;
    observed.layer != ConfigLayerV1::User || (name != "CLAUDE_CODE_AUTO_COMPACT_WINDOW"@ && name
        != "CLAUDE_CODE_MAX_CONTEXT_TOKENS"@)
}

/// An edit of the user's file does not decide the routing where another source says anything of a
/// model, of an address or of authentication.
pub proof fn other_routing_conflicts(values: &Vec<ObservedClaudeSettings>, r: bool)
    requires
        call_ensures(claude_native_routing_conflict, (values,), r),
    ensures
        r <==> exists|i: int|
            0 <= i < values@.len() && (#[trigger] values@[i]).layer != ConfigLayerV1::User && (
            values@[i].settings.model is Some || values@[i].settings.env.base_url is Some
                || values@[i].settings.env.model is Some
                || values@[i].settings.env.default_opus_model is Some
                || values@[i].settings.env.default_sonnet_model is Some
                || values@[i].settings.env.default_haiku_model is Some
                || values@[i].settings.env.small_fast_model is Some
                || values@[i].settings.env.present_environment_fields@.len() > 0
                || values@[i].settings.api_key_helper_present),
{
    let all = observed_view(values@);
    assert forall|i: int| 0 <= i < values@.len() implies all[i] == (#[trigger] values@[i])@
        && all[i].settings.env.present.len()
        == values@[i].settings.env.present_environment_fields@.len() by {}
    if r {
        let i = choose|i: int| 0 <= i < values@.len() && routes(#[trigger] all[i]);
        assert(all[i] == values@[i]@);
    }
    assert forall|i: int|
        0 <= i < values@.len() && (#[trigger] values@[i]).layer != ConfigLayerV1::User && (
        values@[i].settings.model is Some || values@[i].settings.env.base_url is Some
            || values@[i].settings.env.model is Some
            || values@[i].settings.env.default_opus_model is Some
            || values@[i].settings.env.default_sonnet_model is Some
            || values@[i].settings.env.default_haiku_model is Some
            || values@[i].settings.env.small_fast_model is Some
            || values@[i].settings.env.present_environment_fields@.len() > 0
            || values@[i].settings.api_key_helper_present) implies r by {
        assert(routes(observed_view(values@)[i]));
        assert(exists|x: int|
            0 <= x < values@.len() && routes(#[trigger] observed_view(values@)[x]));
    }
}

pub open spec fn shown(document: Members, path: Seq<char>) -> Option<JsonView> {
    if document.contains_key(path) {
        Some(document[path])
    } else {
        None
    }
}

pub open spec fn as_text(text: Option<String>) -> Option<JsonView> {
    match text {
        Some(text) => Some(JsonView::Str(text@)),
        None => None,
    }
}

proof fn lemma_paths()
    ensures
        "env.CLAUDE_CODE_AUTO_COMPACT_WINDOW"@ != "env.CLAUDE_CODE_MAX_CONTEXT_TOKENS"@,
        "env.CLAUDE_CODE_AUTO_COMPACT_WINDOW"@ != "env.ANTHROPIC_BASE_URL"@,
        "env.CLAUDE_CODE_AUTO_COMPACT_WINDOW"@ != "env.ANTHROPIC_MODEL"@,
        "env.CLAUDE_CODE_AUTO_COMPACT_WINDOW"@ != "env.ANTHROPIC_DEFAULT_OPUS_MODEL"@,
        "env.CLAUDE_CODE_AUTO_COMPACT_WINDOW"@ != "env.ANTHROPIC_DEFAULT_SONNET_MODEL"@,
        "env.CLAUDE_CODE_AUTO_COMPACT_WINDOW"@ != "env.ANTHROPIC_DEFAULT_HAIKU_MODEL"@,
        "env.CLAUDE_CODE_AUTO_COMPACT_WINDOW"@ != "env.ANTHROPIC_SMALL_FAST_MODEL"@,
        "env.CLAUDE_CODE_AUTO_COMPACT_WINDOW"@ != "apiKeyHelper"@,
        "env.CLAUDE_CODE_AUTO_COMPACT_WINDOW"@ != "hiroute.auth_environment"@,
        "env.CLAUDE_CODE_MAX_CONTEXT_TOKENS"@ != "env.ANTHROPIC_BASE_URL"@,
        "env.CLAUDE_CODE_MAX_CONTEXT_TOKENS"@ != "env.ANTHROPIC_MODEL"@,
        "env.CLAUDE_CODE_MAX_CONTEXT_TOKENS"@ != "env.ANTHROPIC_DEFAULT_OPUS_MODEL"@,
        "env.CLAUDE_CODE_MAX_CONTEXT_TOKENS"@ != "env.ANTHROPIC_DEFAULT_SONNET_MODEL"@,
        "env.CLAUDE_CODE_MAX_CONTEXT_TOKENS"@ != "env.ANTHROPIC_DEFAULT_HAIKU_MODEL"@,
        "env.CLAUDE_CODE_MAX_CONTEXT_TOKENS"@ != "env.ANTHROPIC_SMALL_FAST_MODEL"@,
        "env.CLAUDE_CODE_MAX_CONTEXT_TOKENS"@ != "apiKeyHelper"@,
        "env.CLAUDE_CODE_MAX_CONTEXT_TOKENS"@ != "hiroute.auth_environment"@,
        "env.ANTHROPIC_BASE_URL"@ != "env.ANTHROPIC_MODEL"@,
        "env.ANTHROPIC_BASE_URL"@ != "env.ANTHROPIC_DEFAULT_OPUS_MODEL"@,
        "env.ANTHROPIC_BASE_URL"@ != "env.ANTHROPIC_DEFAULT_SONNET_MODEL"@,
        "env.ANTHROPIC_BASE_URL"@ != "env.ANTHROPIC_DEFAULT_HAIKU_MODEL"@,
        "env.ANTHROPIC_BASE_URL"@ != "env.ANTHROPIC_SMALL_FAST_MODEL"@,
        "env.ANTHROPIC_BASE_URL"@ != "apiKeyHelper"@,
        "env.ANTHROPIC_BASE_URL"@ != "hiroute.auth_environment"@,
        "env.ANTHROPIC_MODEL"@ != "env.ANTHROPIC_DEFAULT_OPUS_MODEL"@,
        "env.ANTHROPIC_MODEL"@ != "env.ANTHROPIC_DEFAULT_SONNET_MODEL"@,
        "env.ANTHROPIC_MODEL"@ != "env.ANTHROPIC_DEFAULT_HAIKU_MODEL"@,
        "env.ANTHROPIC_MODEL"@ != "env.ANTHROPIC_SMALL_FAST_MODEL"@,
        "env.ANTHROPIC_MODEL"@ != "apiKeyHelper"@,
        "env.ANTHROPIC_MODEL"@ != "hiroute.auth_environment"@,
        "env.ANTHROPIC_DEFAULT_OPUS_MODEL"@ != "env.ANTHROPIC_DEFAULT_SONNET_MODEL"@,
        "env.ANTHROPIC_DEFAULT_OPUS_MODEL"@ != "env.ANTHROPIC_DEFAULT_HAIKU_MODEL"@,
        "env.ANTHROPIC_DEFAULT_OPUS_MODEL"@ != "env.ANTHROPIC_SMALL_FAST_MODEL"@,
        "env.ANTHROPIC_DEFAULT_OPUS_MODEL"@ != "apiKeyHelper"@,
        "env.ANTHROPIC_DEFAULT_OPUS_MODEL"@ != "hiroute.auth_environment"@,
        "env.ANTHROPIC_DEFAULT_SONNET_MODEL"@ != "env.ANTHROPIC_DEFAULT_HAIKU_MODEL"@,
        "env.ANTHROPIC_DEFAULT_SONNET_MODEL"@ != "env.ANTHROPIC_SMALL_FAST_MODEL"@,
        "env.ANTHROPIC_DEFAULT_SONNET_MODEL"@ != "apiKeyHelper"@,
        "env.ANTHROPIC_DEFAULT_SONNET_MODEL"@ != "hiroute.auth_environment"@,
        "env.ANTHROPIC_DEFAULT_HAIKU_MODEL"@ != "env.ANTHROPIC_SMALL_FAST_MODEL"@,
        "env.ANTHROPIC_DEFAULT_HAIKU_MODEL"@ != "apiKeyHelper"@,
        "env.ANTHROPIC_DEFAULT_HAIKU_MODEL"@ != "hiroute.auth_environment"@,
        "env.ANTHROPIC_SMALL_FAST_MODEL"@ != "apiKeyHelper"@,
        "env.ANTHROPIC_SMALL_FAST_MODEL"@ != "hiroute.auth_environment"@,
        "apiKeyHelper"@ != "hiroute.auth_environment"@,
{
    reveal_strlit("env.CLAUDE_CODE_AUTO_COMPACT_WINDOW");
    reveal_strlit("env.CLAUDE_CODE_MAX_CONTEXT_TOKENS");
    reveal_strlit("env.ANTHROPIC_BASE_URL");
    reveal_strlit("env.ANTHROPIC_MODEL");
    reveal_strlit("env.ANTHROPIC_DEFAULT_OPUS_MODEL");
    reveal_strlit("env.ANTHROPIC_DEFAULT_SONNET_MODEL");
    reveal_strlit("env.ANTHROPIC_DEFAULT_HAIKU_MODEL");
    reveal_strlit("env.ANTHROPIC_SMALL_FAST_MODEL");
    reveal_strlit("apiKeyHelper");
    reveal_strlit("hiroute.auth_environment");
    assert("env.CLAUDE_CODE_AUTO_COMPACT_WINDOW"@.len() == 35);
    assert("env.CLAUDE_CODE_MAX_CONTEXT_TOKENS"@.len() == 34);
    assert("env.ANTHROPIC_BASE_URL"@.len() == 22);
    assert("env.ANTHROPIC_MODEL"@.len() == 19);
    assert("env.ANTHROPIC_DEFAULT_OPUS_MODEL"@.len() == 32);
    assert("env.ANTHROPIC_DEFAULT_SONNET_MODEL"@.len() == 34);
    assert("env.ANTHROPIC_DEFAULT_HAIKU_MODEL"@.len() == 33);
    assert("env.ANTHROPIC_SMALL_FAST_MODEL"@.len() == 30);
    assert("apiKeyHelper"@.len() == 12);
    assert("hiroute.auth_environment"@.len() == 24);
    assert("env.CLAUDE_CODE_MAX_CONTEXT_TOKENS"@[4] != "env.ANTHROPIC_DEFAULT_SONNET_MODEL"@[4]);
}

/// The managed fields of the user's file are each what the user's own source says of it; the helper
/// and the credentials are only told to be there.
pub proof fn user_documents_show_the_users_own(
    values: &Vec<ObservedClaudeSettings>,
    r: Result<Vec<(String, Json)>, AgentFilesystemScanError>,
    at: int,
)
    requires
        call_ensures(claude_user_config_document, (values,), r),
    ensures
        r is Ok <==> exists|i: int|
            0 <= i < values@.len() && (#[trigger] values@[i]).layer == ConfigLayerV1::User,
        0 <= at < values@.len() && values@[at].layer == ConfigLayerV1::User && (forall|i: int|
            0 <= i < at ==> (#[trigger] values@[i]).layer != ConfigLayerV1::User) ==> {
            let document = object_view(r->Ok_0@);
            let settings = values@[at].settings;
            let present = views_of(settings.env.present_environment_fields@);
            &&& shown(document, "env.ANTHROPIC_BASE_URL"@) == as_text(settings.env.base_url)
            &&& shown(document, "env.ANTHROPIC_MODEL"@) == as_text(settings.env.model)
            &&& shown(document, "env.ANTHROPIC_DEFAULT_OPUS_MODEL"@) == as_text(settings.env.default_opus_model)
            &&& shown(document, "env.ANTHROPIC_DEFAULT_SONNET_MODEL"@) == as_text(settings.env.default_sonnet_model)
            &&& shown(document, "env.ANTHROPIC_DEFAULT_HAIKU_MODEL"@) == as_text(settings.env.default_haiku_model)
            &&& shown(document, "env.ANTHROPIC_SMALL_FAST_MODEL"@) == as_text(settings.env.small_fast_model)
            &&& shown(document, "apiKeyHelper"@) is Some <==> settings.api_key_helper_present
            &&& shown(document, "hiroute.auth_environment"@) is Some <==> present.contains(
                "ANTHROPIC_AUTH_TOKEN"@,
            ) || present.contains("ANTHROPIC_API_KEY"@) || present.contains(
                "ANTHROPIC_CUSTOM_HEADERS"@,
            ) || present.contains("CLAUDE_CODE_USE_BEDROCK"@) || present.contains(
                "CLAUDE_CODE_USE_FOUNDRY"@,
            ) || present.contains("CLAUDE_CODE_USE_VERTEX"@)
            &&& forall|k: int|
                #![trigger settings.env.context_environment@[k]]
                is_first(settings.env.context_environment@, "CLAUDE_CODE_AUTO_COMPACT_WINDOW"@, k)
                    ==> shown(document, "env.CLAUDE_CODE_AUTO_COMPACT_WINDOW"@) == Some(
                    JsonView::Str(settings.env.context_environment@[k].1@),
                )
            &&& forall|k: int|
                #![trigger settings.env.context_environment@[k]]
                is_first(settings.env.context_environment@, "CLAUDE_CODE_MAX_CONTEXT_TOKENS"@, k)
                    ==> shown(document, "env.CLAUDE_CODE_MAX_CONTEXT_TOKENS"@) == Some(
                    JsonView::Str(settings.env.context_environment@[k].1@),
                )
        },
{
    let all = observed_view(values@);
    assert forall|i: int| 0 <= i < values@.len() implies all[i] == (#[trigger] values@[i])@ by {}
    lemma_user(values@);
    lemma_paths();
    if 0 <= at < values@.len() && values@[at].layer == ConfigLayerV1::User && (forall|i: int|
        0 <= i < at ==> (#[trigger] values@[i]).layer != ConfigLayerV1::User) {
        let k = user_source(all)->0;
        if at < k {
            assert(values@[at].layer != ConfigLayerV1::User);
        } else if k < at {
            assert(values@[k].layer != ConfigLayerV1::User);
        }
        let context = values@[at].settings.env.context_environment@;
        lemma_paired(context, "CLAUDE_CODE_AUTO_COMPACT_WINDOW"@);
        lemma_paired(context, "CLAUDE_CODE_MAX_CONTEXT_TOKENS"@);
    }
}

proof fn lemma_user(values: Seq<ObservedClaudeSettings>)
    ensures
        match user_source(observed_view(values)) {
            Some(at) => 0 <= at < values.len() && values[at].layer == ConfigLayerV1::User
                && forall|i: int| 0 <= i < at ==> (#[trigger] values[i]).layer != ConfigLayerV1::User,
            None => forall|i: int|
                0 <= i < values.len() ==> (#[trigger] values[i]).layer != ConfigLayerV1::User,
        },
    decreases values.len(),
{
    if values.len() > 0 {
        let init = values.drop_last();
        lemma_user(init);
        assert(observed_view(init) =~= observed_view(values).drop_last());
        assert(observed_view(values).last() == values.last()@);
        assert(values[values.len() - 1] == values.last());
        assert forall|i: int| 0 <= i < init.len() implies init[i] == #[trigger] values[i] by {}
    }
}

proof fn lemma_paired(pairs: Seq<(String, String)>, name: Seq<char>)
    ensures
        forall|k: int|
            #![trigger pairs[k]]
            is_first(pairs, name, k) ==> paired(pairs_view(pairs), name) == Some(pairs[k].1@),
    decreases pairs.len(),
{
    if pairs.len() > 0 {
        let rest = pairs.skip(1);
        let all = pairs_view(pairs);
        lemma_paired(rest, name);
        assert(pairs_view(rest) =~= all.skip(1));
        assert(all[0] == (pairs[0].0@, pairs[0].1@));
        assert forall|k: int|
            #![trigger pairs[k]]
            is_first(pairs, name, k) implies paired(all, name) == Some(pairs[k].1@) by {
            if k > 0 {
                assert(pairs[0].0@ != name);
                assert(rest[k - 1] == pairs[k]);
                assert(is_first(rest, name, k - 1)) by {
                    assert forall|j: int| 0 <= j < k - 1 implies (#[trigger] rest[j]).0@ != name by {
                        assert(pairs[j + 1].0@ != name);
                    }
                }
            }
        }
    }
}

/// Two sources of one layer that both have the credential conflict, and nothing else does.
pub proof fn one_layer_has_one_credential(values: &Vec<ObservedClaudeSettings>, r: bool)
    requires
        call_ensures(same_layer_secret_conflict, (values,), r),
    ensures
        r <==> exists|i: int, j: int|
            0 <= i < j < values@.len() && counts(#[trigger] values@[i], None) && counts(
                #[trigger] values@[j],
                None,
            ) && values@[i].layer == values@[j].layer,
{
    let all = observed_view(values@);
    assert forall|i: int| 0 <= i < values@.len() implies all[i] == (#[trigger] values@[i])@
        && has_field(all[i], None) == counts(values@[i], None) by {}
    if r {
        let (i, j) = choose|i: int, j: int|
            0 <= i < j < all.len() && has_field(#[trigger] all[i], None) && has_field(
                #[trigger] all[j],
                None,
            ) && all[i].layer == all[j].layer;
        assert(counts(values@[i], None) && counts(values@[j], None));
    }
    if exists|i: int, j: int|
        0 <= i < j < values@.len() && counts(#[trigger] values@[i], None) && counts(
            #[trigger] values@[j],
            None,
        ) && values@[i].layer == values@[j].layer {
        let (i, j) = choose|i: int, j: int|
            0 <= i < j < values@.len() && counts(#[trigger] values@[i], None) && counts(
                #[trigger] values@[j],
                None,
            ) && values@[i].layer == values@[j].layer;
        assert(has_field(all[i], None) && has_field(all[j], None));
    }
}

/// A token refers to a variable as a shell would write it: by a dollar sign and its name, with or
/// without braces. Anything else is a token itself.
pub proof fn tokens_refer_like_a_shell(value: &str, name: Seq<char>, r: Option<String>)
    requires
        call_ensures(explicit_environment_name, (value,), r),
    ensures
        0 < name.len() && byte_len(name) <= 128 && (forall|i: int|
            0 <= i < name.len() ==> is_alphanumeric(#[trigger] name[i]) || name[i] == '_') && (
        value@ == seq!['$'] + name || value@ == seq!['$', '{'] + name + seq!['}']) ==> text_of(r)
            == Some(name),
        value@.len() == 0 || value@[0] != '$' ==> r is None,
        r matches Some(found) ==> 0 < found@.len() && byte_len(found@) <= 128 && (value@
            == seq!['$'] + found@ || value@ == seq!['$', '{'] + found@ + seq!['}']),
{
    reveal_strlit("$");
    reveal_strlit("${");
    reveal_strlit("}");
    assert("$"@ =~= seq!['$'] && "${"@ =~= seq!['$', '{'] && "}"@ =~= seq!['}']);
    let v = value@;
    if v == seq!['$', '{'] + name + seq!['}'] {
        assert(v.take(2) =~= "${"@);
        let rest = v.skip(2);
        assert(rest =~= name + seq!['}']);
        assert(rest.skip(rest.len() - 1) =~= "}"@);
        assert(rest.take(rest.len() - 1) =~= name);
    }
    if v == seq!['$'] + name && name.len() > 0 && (forall|i: int|
        0 <= i < name.len() ==> is_alphanumeric(#[trigger] name[i]) || name[i] == '_') {
        assert(v.take(1) =~= "$"@);
        assert(v.skip(1) =~= name);
        assert(is_alphanumeric(name[0]) || name[0] == '_');
        assert(v[1] == name[0]);
        if v.take(2) == "${"@ {
            assert(v.take(2)[1] == '{');
        }
    }
    if v.len() > 0 && v[0] != '$' {
        assert(v.take(1)[0] == v[0]);
        if v.len() > 1 {
            assert(v.take(2)[0] == v[0]);
        }
    }
    if let Some(found) = r {
        if after_prefix(v, "${"@) is Some && before_suffix(v.skip(2), "}"@) is Some {
            let rest = v.skip(2);
            assert(rest =~= found@ + seq!['}']) by {
                assert(rest.skip(rest.len() - 1) == seq!['}']);
                assert(rest =~= rest.take(rest.len() - 1) + rest.skip(rest.len() - 1));
            }
            assert(v =~= v.take(2) + rest);
            assert(v =~= seq!['$', '{'] + found@ + seq!['}']);
        } else {
            assert(v =~= v.take(1) + v.skip(1));
        }
    }
}

/// What ClaudeCode asks of a candidate: as any conversation, but over messages and without images.
pub proof fn conversations_go_over_messages(r: RequestCapabilityRequirements)
    requires
        call_ensures(claude_requirements, (), r),
    ensures
        r.ingress_protocol == IngressProtocol::Messages,
        r.text && r.initial_instructions && !r.mid_conversation_instructions,
        !r.image_url && !r.image_base64 && r.image_media_types@.len() == 0,
        r.function_tools && r.tool_roundtrip && r.tool_result_text && r.tool_result_json,
        r.streaming && r.stream_text && r.stream_tool_arguments && r.stream_usage,
        !r.strict_tools && !r.parallel_tools && !r.stream_reasoning && !r.provider_state,
{
    assert(views_of(r.image_media_types@).len() == r.image_media_types@.len());
}

/// A plan is offered to ClaudeCode exactly where it is valid, every candidate carries the
/// conversation, and both windows are known; what is missing first is told.
pub proof fn plans_are_offered_where_all_carry(
    plan: &ClaudePlan,
    r: ClaudeClientCapabilityPreviewV1,
    at: int,
)
    requires
        call_ensures(claude_plan_capability_preview, (plan,), r),
    ensures
        r is Available <==> plan.is_valid && (forall|i: int|
            0 <= i < plan.candidates@.len() ==> (#[trigger] plan.candidates@[i])
                == MessagesProfile::Answers(CapabilityVerdict::Supported)) && plan.plan_window
            is Some && plan.context_window is Some,
        r matches ClaudeClientCapabilityPreviewV1::Available { context_window, plan_window }
            ==> plan.context_window == Some(context_window) && plan.plan_window == Some(
            plan_window,
        ),
        !plan.is_valid ==> (r matches ClaudeClientCapabilityPreviewV1::Unavailable { reason }
            && reason@ == "invalid_compiled_plan"@),
        plan.is_valid && 0 <= at < plan.candidates@.len() && plan.candidates@[at]
            != MessagesProfile::Answers(CapabilityVerdict::Supported) && (forall|i: int|
            0 <= i < at ==> (#[trigger] plan.candidates@[i]) == MessagesProfile::Answers(
                CapabilityVerdict::Supported,
            )) ==> (r matches ClaudeClientCapabilityPreviewV1::Unavailable { reason } && reason@
            == if plan.candidates@[at] is Missing {
            "messages_protocol"@
        } else {
            "request_capabilities"@
        }),
        plan.is_valid && (forall|i: int|
            0 <= i < plan.candidates@.len() ==> (#[trigger] plan.candidates@[i])
                == MessagesProfile::Answers(CapabilityVerdict::Supported)) && !(r is Available)
            ==> (r matches ClaudeClientCapabilityPreviewV1::Unavailable { reason } && reason@
            == if plan.plan_window is None {
            "context_window"@
        } else {
            "context_window_below_minimum"@
        }),
{
    lemma_faults(plan.candidates@);
    if candidates_fault(plan.candidates@) is None {
        assert forall|i: int| 0 <= i < plan.candidates@.len() implies (
        #[trigger] plan.candidates@[i]) == MessagesProfile::Answers(
            CapabilityVerdict::Supported,
        ) by {}
    }
}

proof fn lemma_faults(candidates: Seq<MessagesProfile>)
    ensures
        match candidates_fault(candidates) {
            None => forall|i: int|
                0 <= i < candidates.len() ==> (#[trigger] candidates[i]) == MessagesProfile::Answers(
                    CapabilityVerdict::Supported,
                ),
            Some(fault) => exists|at: int|
                0 <= at < candidates.len() && candidate_fault(#[trigger] candidates[at]) == Some(
                    fault,
                ) && (forall|i: int|
                    0 <= i < at ==> (#[trigger] candidates[i]) == MessagesProfile::Answers(
                        CapabilityVerdict::Supported,
                    )),
        },
    decreases candidates.len(),
{
    if candidates.len() > 0 {
        let rest = candidates.skip(1);
        assert forall|i: int| 1 <= i < candidates.len() implies rest[i - 1]
            == #[trigger] candidates[i] by {}
        if candidate_fault(candidates[0]) is None {
            lemma_faults(rest);
            match candidates_fault(rest) {
                None => {
                    assert forall|i: int| 0 <= i < candidates.len() implies (
                    #[trigger] candidates[i]) == MessagesProfile::Answers(
                        CapabilityVerdict::Supported,
                    ) by {
                        if i > 0 {
                            assert(rest[i - 1] == candidates[i]);
                        }
                    }
                },
                Some(fault) => {
                    let at = choose|at: int|
                        0 <= at < rest.len() && candidate_fault(#[trigger] rest[at]) == Some(fault)
                            && (forall|i: int|
                            0 <= i < at ==> (#[trigger] rest[i]) == MessagesProfile::Answers(
                                CapabilityVerdict::Supported,
                            ));
                    assert(candidate_fault(candidates[at + 1]) == Some(fault));
                    assert forall|i: int| 0 <= i < at + 1 implies (#[trigger] candidates[i])
                        == MessagesProfile::Answers(CapabilityVerdict::Supported) by {
                        if i > 0 {
                            assert(rest[i - 1] == candidates[i]);
                        }
                    }
                },
            }
        } else {
            assert(candidate_fault(candidates[0]) == candidates_fault(candidates));
        }
    }
}

} // verus!
