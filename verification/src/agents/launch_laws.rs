//! What a managed launch comes to, told by its descriptor alone: the private settings, the
//! environment of the process, and what keeps it from starting.

use vstd::prelude::*;
use crate::agents::claude_config::{shell_escaped, shell_quoted};
use crate::agents::claude_settings::ObservedView;
use crate::agents::discovery::ConfigLayerV1;
use crate::agents::managed_launch::{
    conflicts_of, decided_names, environment_of, fields_set, inherited_of, launch_arguments,
    lemma_with_blanks, lemma_without_members, members_or_none, env_or_none, overlay_env,
    overlay_of, quoted_words, routing_fields, sets_field, verify_claude_executable, with_removals,
    without_all, without_members, AgentAuthRoutingFieldV1, LaunchView,
    ManagedClaudeLaunchDescriptorV2, ManagedClaudeProcessError, Variables,
};
use crate::json::JsonView;
use crate::text::{decimal_text, views_of};

verus! {

proof fn lemma_names()
    ensures
        "env"@ != "apiKeyHelper"@,
        "ANTHROPIC_BASE_URL"@ != "ANTHROPIC_MODEL"@,
        "ANTHROPIC_BASE_URL"@ != "ANTHROPIC_DEFAULT_OPUS_MODEL"@,
        "ANTHROPIC_BASE_URL"@ != "ANTHROPIC_DEFAULT_SONNET_MODEL"@,
        "ANTHROPIC_BASE_URL"@ != "ANTHROPIC_DEFAULT_HAIKU_MODEL"@,
        "ANTHROPIC_BASE_URL"@ != "CLAUDE_CODE_AUTO_COMPACT_WINDOW"@,
        "ANTHROPIC_BASE_URL"@ != "CLAUDE_CODE_MAX_CONTEXT_TOKENS"@,
        "ANTHROPIC_MODEL"@ != "ANTHROPIC_DEFAULT_OPUS_MODEL"@,
        "ANTHROPIC_MODEL"@ != "ANTHROPIC_DEFAULT_SONNET_MODEL"@,
        "ANTHROPIC_MODEL"@ != "ANTHROPIC_DEFAULT_HAIKU_MODEL"@,
        "ANTHROPIC_MODEL"@ != "CLAUDE_CODE_AUTO_COMPACT_WINDOW"@,
        "ANTHROPIC_MODEL"@ != "CLAUDE_CODE_MAX_CONTEXT_TOKENS"@,
        "ANTHROPIC_DEFAULT_OPUS_MODEL"@ != "ANTHROPIC_DEFAULT_SONNET_MODEL"@,
        "ANTHROPIC_DEFAULT_OPUS_MODEL"@ != "ANTHROPIC_DEFAULT_HAIKU_MODEL"@,
        "ANTHROPIC_DEFAULT_OPUS_MODEL"@ != "CLAUDE_CODE_AUTO_COMPACT_WINDOW"@,
        "ANTHROPIC_DEFAULT_OPUS_MODEL"@ != "CLAUDE_CODE_MAX_CONTEXT_TOKENS"@,
        "ANTHROPIC_DEFAULT_SONNET_MODEL"@ != "ANTHROPIC_DEFAULT_HAIKU_MODEL"@,
        "ANTHROPIC_DEFAULT_SONNET_MODEL"@ != "CLAUDE_CODE_AUTO_COMPACT_WINDOW"@,
        "ANTHROPIC_DEFAULT_SONNET_MODEL"@ != "CLAUDE_CODE_MAX_CONTEXT_TOKENS"@,
        "ANTHROPIC_DEFAULT_HAIKU_MODEL"@ != "CLAUDE_CODE_AUTO_COMPACT_WINDOW"@,
        "ANTHROPIC_DEFAULT_HAIKU_MODEL"@ != "CLAUDE_CODE_MAX_CONTEXT_TOKENS"@,
        "CLAUDE_CODE_AUTO_COMPACT_WINDOW"@ != "CLAUDE_CODE_MAX_CONTEXT_TOKENS"@,
{
    reveal_strlit("env");
    reveal_strlit("apiKeyHelper");
    assert("env"@.len() == 3 && "apiKeyHelper"@.len() == 12);
    reveal_strlit("ANTHROPIC_BASE_URL");
    reveal_strlit("ANTHROPIC_MODEL");
    reveal_strlit("ANTHROPIC_DEFAULT_OPUS_MODEL");
    reveal_strlit("ANTHROPIC_DEFAULT_SONNET_MODEL");
    reveal_strlit("ANTHROPIC_DEFAULT_HAIKU_MODEL");
    reveal_strlit("CLAUDE_CODE_AUTO_COMPACT_WINDOW");
    reveal_strlit("CLAUDE_CODE_MAX_CONTEXT_TOKENS");
    assert("ANTHROPIC_BASE_URL"@.len() == 18);
    assert("ANTHROPIC_MODEL"@.len() == 15);
    assert("ANTHROPIC_DEFAULT_OPUS_MODEL"@.len() == 28);
    assert("ANTHROPIC_DEFAULT_SONNET_MODEL"@.len() == 30);
    assert("ANTHROPIC_DEFAULT_HAIKU_MODEL"@.len() == 29);
    assert("CLAUDE_CODE_AUTO_COMPACT_WINDOW"@.len() == 31);
    assert("CLAUDE_CODE_MAX_CONTEXT_TOKENS"@.len() == 30);
    assert("ANTHROPIC_DEFAULT_SONNET_MODEL"@[0] != "CLAUDE_CODE_MAX_CONTEXT_TOKENS"@[0]);
}

/// Whether a launch leaves a variable as it decided it: its context window takes it out again
/// where it is one of those that contradict one.
pub open spec fn stays(
    descriptor: ManagedClaudeLaunchDescriptorV2,
    conflicts: Seq<Seq<char>>,
    name: Seq<char>,
) -> bool {
    descriptor.context_window_tokens is None || !conflicts.contains(name)
}

/// What the private settings of a launch say of a variable.
pub open spec fn set_in_private(
    descriptor: ManagedClaudeLaunchDescriptorV2,
    settings: JsonView,
    conflicts: Seq<Seq<char>>,
    name: Seq<char>,
) -> Option<JsonView> {
    match overlay_of(descriptor@, settings, conflicts)["env"@] {
        JsonView::Object(env) => if env.contains_key(name) {
            Some(env[name])
        } else {
            None
        },
        _ => None,
    }
}

/// What a launch does to a variable of its process: sets it, takes it out, or leaves it.
pub open spec fn done_to_process(
    descriptor: ManagedClaudeLaunchDescriptorV2,
    conflicts: Seq<Seq<char>>,
    name: Seq<char>,
) -> Option<Option<Seq<char>>> {
    let variables = environment_of(descriptor@, conflicts);
    if variables.contains_key(name) {
        Some(variables[name])
    } else {
        None
    }
}

proof fn lemma_private(
    descriptor: ManagedClaudeLaunchDescriptorV2,
    settings: JsonView,
    conflicts: Seq<Seq<char>>,
    name: Seq<char>,
)
    ensures
        overlay_of(descriptor@, settings, conflicts)["env"@] == JsonView::Object(
            overlay_env(descriptor@, env_or_none(members_or_none(settings)), conflicts),
        ),
        ({
            let launch = descriptor@;
            let env = env_or_none(members_or_none(settings));
            let plain = overlay_env(LaunchView { window: None, ..launch }, env, conflicts);
            let after = overlay_env(launch, env, conflicts);
            name != "CLAUDE_CODE_AUTO_COMPACT_WINDOW"@ && name
                != "CLAUDE_CODE_MAX_CONTEXT_TOKENS"@ ==> {
                &&& stays(descriptor, conflicts, name) ==> after.contains_key(name)
                    == plain.contains_key(name) && (plain.contains_key(name) ==> after[name]
                    == plain[name])
                &&& !stays(descriptor, conflicts, name) ==> !after.contains_key(name)
            }
        }),
{
    lemma_names();
    let launch = descriptor@;
    let env = env_or_none(members_or_none(settings));
    let plain = overlay_env(LaunchView { window: None, ..launch }, env, conflicts);
    lemma_without_members(plain, conflicts, name);
}

proof fn lemma_process(
    descriptor: ManagedClaudeLaunchDescriptorV2,
    conflicts: Seq<Seq<char>>,
    name: Seq<char>,
)
    ensures
        ({
            let launch = descriptor@;
            let plain = environment_of(LaunchView { window: None, ..launch }, conflicts);
            let after = environment_of(launch, conflicts);
            name != "CLAUDE_CODE_AUTO_COMPACT_WINDOW"@ && name
                != "CLAUDE_CODE_MAX_CONTEXT_TOKENS"@ ==> {
                &&& stays(descriptor, conflicts, name) ==> after.contains_key(name)
                    == plain.contains_key(name) && (plain.contains_key(name) ==> after[name]
                    == plain[name])
                &&& !stays(descriptor, conflicts, name) ==> after.contains_key(name) && after[name]
                    is None
            }
        }),
{
    lemma_names();
    let launch = descriptor@;
    let plain = environment_of(LaunchView { window: None, ..launch }, conflicts);
    lemma_taken_out(plain, conflicts, name);
}

proof fn lemma_taken_out(variables: Variables, names: Seq<Seq<char>>, name: Seq<char>)
    ensures
        ({
            let after = without_all(variables, names);
            if names.contains(name) {
                after.contains_key(name) && after[name] is None
            } else {
                after.contains_key(name) == variables.contains_key(name) && (
                variables.contains_key(name) ==> after[name] == variables[name])
            }
        }),
    decreases names.len(),
{
    if names.len() > 0 {
        let rest = names.drop_last();
        lemma_taken_out(variables, rest, name);
        lemma_last_of(names, name);
    }
}

proof fn lemma_last_of(names: Seq<Seq<char>>, name: Seq<char>)
    requires
        names.len() > 0,
    ensures
        names.contains(name) <==> names.drop_last().contains(name) || names.last() == name,
{
    let rest = names.drop_last();
    assert(names[names.len() - 1] == names.last());
    if names.contains(name) {
        let k = choose|k: int| 0 <= k < names.len() && names[k] == name;
        if k < rest.len() {
            assert(rest[k] == name);
        }
    }
    if rest.contains(name) {
        let k = choose|k: int| 0 <= k < rest.len() && rest[k] == name;
        assert(names[k] == name);
    }
}

proof fn lemma_removals(removals: Seq<Seq<char>>, name: Seq<char>)
    ensures
        ({
            let after = with_removals(Map::empty(), removals);
            &&& after.contains_key(name) <==> removals.contains(name)
            &&& removals.contains(name) ==> after[name] == if name == "ANTHROPIC_BASE_URL"@ || name
                == "ANTHROPIC_MODEL"@ {
                None
            } else {
                Some(Seq::<char>::empty())
            }
        }),
    decreases removals.len(),
{
    if removals.len() > 0 {
        lemma_removals(removals.drop_last(), name);
        lemma_last_of(removals, name);
    }
}

/// Each preset goes to its own variable, in the private settings and in the process alike: opus to
/// the opus variable, sonnet to the sonnet variable and haiku to the haiku variable. A preset that
/// is not set is blank in the settings, and its variable is taken out of the process.
pub proof fn presets_go_to_their_own_variables(
    descriptor: ManagedClaudeLaunchDescriptorV2,
    settings: JsonView,
    conflicts: Seq<Seq<char>>,
)
    ensures
        ({
            let name = "ANTHROPIC_DEFAULT_OPUS_MODEL"@;
            stays(descriptor, conflicts, name) ==> is_preset(
                descriptor.preset_opus,
                set_in_private(descriptor, settings, conflicts, name),
                done_to_process(descriptor, conflicts, name),
            )
        }),
        ({
            let name = "ANTHROPIC_DEFAULT_SONNET_MODEL"@;
            stays(descriptor, conflicts, name) ==> is_preset(
                descriptor.preset_sonnet,
                set_in_private(descriptor, settings, conflicts, name),
                done_to_process(descriptor, conflicts, name),
            )
        }),
        ({
            let name = "ANTHROPIC_DEFAULT_HAIKU_MODEL"@;
            stays(descriptor, conflicts, name) ==> is_preset(
                descriptor.preset_haiku,
                set_in_private(descriptor, settings, conflicts, name),
                done_to_process(descriptor, conflicts, name),
            )
        }),
{
    lemma_names();
    lemma_private(descriptor, settings, conflicts, "ANTHROPIC_DEFAULT_OPUS_MODEL"@);
    lemma_private(descriptor, settings, conflicts, "ANTHROPIC_DEFAULT_SONNET_MODEL"@);
    lemma_private(descriptor, settings, conflicts, "ANTHROPIC_DEFAULT_HAIKU_MODEL"@);
    lemma_process(descriptor, conflicts, "ANTHROPIC_DEFAULT_OPUS_MODEL"@);
    lemma_process(descriptor, conflicts, "ANTHROPIC_DEFAULT_SONNET_MODEL"@);
    lemma_process(descriptor, conflicts, "ANTHROPIC_DEFAULT_HAIKU_MODEL"@);
}

/// Whether a preset is what the settings and the process say.
pub open spec fn is_preset(
    preset: Option<String>,
    private: Option<JsonView>,
    process: Option<Option<Seq<char>>>,
) -> bool {
    match preset {
        Some(model) => private == Some(JsonView::Str(model@)) && process == Some(Some(model@)),
        None => private == Some(JsonView::Str(Seq::empty())) && process == Some(None::<Seq<char>>),
    }
}

/// The address of a launch is that of the gateway, and its model is the user's to choose: no
/// settings and no environment say another, whatever they said before.
pub proof fn addresses_and_models_are_the_launchs_own(
    descriptor: ManagedClaudeLaunchDescriptorV2,
    settings: JsonView,
    conflicts: Seq<Seq<char>>,
)
    ensures
        stays(descriptor, conflicts, "ANTHROPIC_BASE_URL"@) ==> set_in_private(
            descriptor,
            settings,
            conflicts,
            "ANTHROPIC_BASE_URL"@,
        ) == Some(JsonView::Str(descriptor.gateway_base_url@)) && done_to_process(
            descriptor,
            conflicts,
            "ANTHROPIC_BASE_URL"@,
        ) == Some(Some(descriptor.gateway_base_url@)),
        set_in_private(descriptor, settings, conflicts, "ANTHROPIC_MODEL"@) is None,
        views_of(descriptor.environment_removals@).contains("ANTHROPIC_MODEL"@) ==> done_to_process(
            descriptor,
            conflicts,
            "ANTHROPIC_MODEL"@,
        ) == Some(None::<Seq<char>>),
{
    lemma_names();
    let env = env_or_none(members_or_none(settings));
    let name = "ANTHROPIC_MODEL"@;
    lemma_private(descriptor, settings, conflicts, "ANTHROPIC_BASE_URL"@);
    lemma_process(descriptor, conflicts, "ANTHROPIC_BASE_URL"@);
    lemma_private(descriptor, settings, conflicts, name);
    lemma_process(descriptor, conflicts, name);
    assert(decided_names()[4] == name);
    lemma_without_members(env, decided_names(), name);
    lemma_with_blanks(without_members(env, decided_names()), descriptor@.removals, name);
    lemma_removals(descriptor@.removals, name);
}

/// Every variable that a launch takes out, other than those that it sets itself, is blank in the
/// private settings and in the process, so that nothing brings it back.
pub proof fn removed_variables_are_blank(
    descriptor: ManagedClaudeLaunchDescriptorV2,
    settings: JsonView,
    conflicts: Seq<Seq<char>>,
    name: Seq<char>,
)
    requires
        views_of(descriptor.environment_removals@).contains(name),
        name != "ANTHROPIC_BASE_URL"@ && name != "ANTHROPIC_MODEL"@,
        name != "ANTHROPIC_DEFAULT_OPUS_MODEL"@ && name != "ANTHROPIC_DEFAULT_SONNET_MODEL"@ && name
            != "ANTHROPIC_DEFAULT_HAIKU_MODEL"@,
        descriptor.context_window_tokens is Some ==> name != "CLAUDE_CODE_AUTO_COMPACT_WINDOW"@
            && name != "CLAUDE_CODE_MAX_CONTEXT_TOKENS"@,
        stays(descriptor, conflicts, name),
    ensures
        set_in_private(descriptor, settings, conflicts, name) == Some(
            JsonView::Str(Seq::empty()),
        ),
        done_to_process(descriptor, conflicts, name) == Some(Some(Seq::<char>::empty())),
{
    lemma_names();
    let env = env_or_none(members_or_none(settings));
    lemma_private(descriptor, settings, conflicts, name);
    lemma_process(descriptor, conflicts, name);
    lemma_with_blanks(without_members(env, decided_names()), descriptor@.removals, name);
    lemma_removals(descriptor@.removals, name);
}

/// A context window is told in both of its variables, in decimal, in the settings and in the
/// process; every other variable that contradicts a window is gone from both. Without a window
/// nothing is said of it.
pub proof fn windows_are_told_without_contradiction(
    descriptor: ManagedClaudeLaunchDescriptorV2,
    settings: JsonView,
    conflicts: Seq<Seq<char>>,
    name: Seq<char>,
)
    ensures
        descriptor.context_window_tokens matches Some(window) ==> {
            let told = decimal_text(window as nat);
            &&& set_in_private(
                descriptor,
                settings,
                conflicts,
                "CLAUDE_CODE_AUTO_COMPACT_WINDOW"@,
            ) == Some(JsonView::Str(told))
            &&& set_in_private(
                descriptor,
                settings,
                conflicts,
                "CLAUDE_CODE_MAX_CONTEXT_TOKENS"@,
            ) == Some(JsonView::Str(told))
            &&& done_to_process(descriptor, conflicts, "CLAUDE_CODE_AUTO_COMPACT_WINDOW"@) == Some(
                Some(told),
            )
            &&& done_to_process(descriptor, conflicts, "CLAUDE_CODE_MAX_CONTEXT_TOKENS"@) == Some(
                Some(told),
            )
            &&& conflicts.contains(name) && name != "CLAUDE_CODE_AUTO_COMPACT_WINDOW"@ && name
                != "CLAUDE_CODE_MAX_CONTEXT_TOKENS"@ ==> set_in_private(
                descriptor,
                settings,
                conflicts,
                name,
            ) is None && done_to_process(descriptor, conflicts, name) == Some(None::<Seq<char>>)
        },
        descriptor.context_window_tokens is None && !views_of(
            descriptor.environment_removals@,
        ).contains("CLAUDE_CODE_MAX_CONTEXT_TOKENS"@) ==> done_to_process(
            descriptor,
            conflicts,
            "CLAUDE_CODE_MAX_CONTEXT_TOKENS"@,
        ) is None,
{
    lemma_names();
    lemma_private(descriptor, settings, conflicts, name);
    lemma_process(descriptor, conflicts, name);
    lemma_removals(descriptor@.removals, "CLAUDE_CODE_MAX_CONTEXT_TOKENS"@);
}

/// A launch touches no other variable of its process than those that it takes out, the presets, the
/// address and, with a context window, those that bear on it.
pub proof fn other_variables_are_left(
    descriptor: ManagedClaudeLaunchDescriptorV2,
    conflicts: Seq<Seq<char>>,
    name: Seq<char>,
)
    requires
        !views_of(descriptor.environment_removals@).contains(name),
        name != "ANTHROPIC_BASE_URL"@,
        name != "ANTHROPIC_DEFAULT_OPUS_MODEL"@ && name != "ANTHROPIC_DEFAULT_SONNET_MODEL"@ && name
            != "ANTHROPIC_DEFAULT_HAIKU_MODEL"@,
        descriptor.context_window_tokens is Some ==> !conflicts.contains(name) && name
            != "CLAUDE_CODE_AUTO_COMPACT_WINDOW"@ && name != "CLAUDE_CODE_MAX_CONTEXT_TOKENS"@,
    ensures
        done_to_process(descriptor, conflicts, name) is None,
{
    lemma_process(descriptor, conflicts, name);
    lemma_removals(descriptor@.removals, name);
}

/// What a shell reads of a word: what stands in quotes as it is, and a character behind a backslash
/// outside of them as itself.
pub open spec fn shell_reads(word: Seq<char>, inside: bool) -> Seq<char>
    decreases word.len(),
{
    if word.len() == 0 {
        Seq::empty()
    } else if word[0] == '\'' {
        shell_reads(word.skip(1), !inside)
    } else if !inside && word[0] == '\\' && word.len() > 1 {
        seq![word[1]] + shell_reads(word.skip(2), inside)
    } else {
        seq![word[0]] + shell_reads(word.skip(1), inside)
    }
}

proof fn lemma_reads_on(a: Seq<char>, c: Seq<char>, value: Seq<char>)
    requires
        a == shell_escaped(value),
    ensures
        shell_reads(a + c, true) == value + shell_reads(c, true),
    decreases value.len(),
{
    if value.len() == 0 {
        assert(a + c =~= c);
        assert(value + shell_reads(c, true) =~= shell_reads(c, true));
    } else {
        let init = value.drop_last();
        let last = value.last();
        let front = shell_escaped(init);
        reveal_strlit("'\\''");
        if last == '\'' {
            let tail = "'\\''"@ + c;
            lemma_reads_on(front, tail, init);
            assert(a + c =~= front + tail);
            assert(tail.skip(1).skip(2).skip(1) =~= c);
            assert(tail.skip(1)[0] == '\\' && tail.skip(1)[1] == '\'');
            assert(tail.skip(1).skip(2)[0] == '\'');
            assert(shell_reads(tail.skip(1).skip(2), false) == shell_reads(c, true));
            assert(shell_reads(tail.skip(1), false) == seq!['\''] + shell_reads(c, true));
            assert(shell_reads(tail, true) == seq!['\''] + shell_reads(c, true));
            assert(init + (seq!['\''] + shell_reads(c, true)) =~= value + shell_reads(c, true));
        } else {
            let tail = seq![last] + c;
            lemma_reads_on(front, tail, init);
            assert(a + c =~= front + tail);
            assert(tail.skip(1) =~= c);
            assert(shell_reads(tail, true) == seq![last] + shell_reads(c, true));
            assert(init + (seq![last] + shell_reads(c, true)) =~= value + shell_reads(c, true));
        }
    }
}

/// A shell reads a quoted value as that value, whatever is in it; so no two values are quoted
/// alike.
pub proof fn shells_read_what_was_quoted(value: Seq<char>, other: Seq<char>)
    ensures
        shell_reads(shell_quoted(value), false) == value,
        shell_quoted(value) == shell_quoted(other) ==> value == other,
{
    lemma_read_back(value);
    lemma_read_back(other);
}

proof fn lemma_read_back(value: Seq<char>)
    ensures
        shell_reads(shell_quoted(value), false) == value,
{
    reveal_strlit("'");
    let word = shell_quoted(value);
    let end = "'"@;
    assert(word.skip(1) =~= shell_escaped(value) + end);
    lemma_reads_on(shell_escaped(value), end, value);
    assert(end.skip(1) =~= Seq::<char>::empty());
    assert(end[0] == '\'' && end.len() == 1);
    assert(shell_reads(end.skip(1), false) =~= Seq::<char>::empty());
    assert(shell_reads(end, true) =~= Seq::<char>::empty());
    assert(value + Seq::<char>::empty() =~= value);
}

/// The helper of a launch is its own command, each word quoted for the shell: the executable alone
/// where it takes no arguments, and each further argument behind the others, a blank apart.
pub proof fn helpers_run_the_own_command(
    descriptor: ManagedClaudeLaunchDescriptorV2,
    longer: ManagedClaudeLaunchDescriptorV2,
    settings: JsonView,
    conflicts: Seq<Seq<char>>,
)
    ensures
        descriptor.helper_argv@.len() == 0 ==> overlay_of(
            descriptor@,
            settings,
            conflicts,
        )["apiKeyHelper"@] == JsonView::Str(shell_quoted(descriptor.helper_executable@)),
        longer.helper_executable@ == descriptor.helper_executable@ && longer.helper_argv@.len()
            == descriptor.helper_argv@.len() + 1 && (forall|i: int|
            0 <= i < descriptor.helper_argv@.len() ==> (#[trigger] descriptor.helper_argv@[i])@
                == longer.helper_argv@[i]@) ==> {
            let before = overlay_of(descriptor@, settings, conflicts)["apiKeyHelper"@];
            let after = overlay_of(longer@, settings, conflicts)["apiKeyHelper"@];
            &&& before is Str
            &&& after == JsonView::Str(
                before->Str_0 + " "@ + shell_quoted(longer.helper_argv@.last()@),
            )
        },
{
    lemma_names();
    let words = quoted_words(descriptor@.helper);
    let all = quoted_words(longer@.helper);
    assert(words[0] == shell_quoted(descriptor.helper_executable@));
    if descriptor.helper_argv@.len() == 0 {
        assert(words.len() == 1);
    }
    if longer.helper_executable@ == descriptor.helper_executable@ && longer.helper_argv@.len()
        == descriptor.helper_argv@.len() + 1 && (forall|i: int|
        0 <= i < descriptor.helper_argv@.len() ==> (#[trigger] descriptor.helper_argv@[i])@
            == longer.helper_argv@[i]@) {
        assert(all.last() == shell_quoted(longer.helper_argv@.last()@));
        assert forall|k: int| 0 <= k < words.len() implies words[k] == all[k] by {
            if k > 0 {
                assert(descriptor.helper_argv@[k - 1]@ == longer.helper_argv@[k - 1]@);
            }
        }
        assert(all.drop_last() =~= words);
    }
}

/// The arguments of a launch name the private settings first, and then are the caller's, in their
/// order.
pub proof fn arguments_name_the_private_settings_first(
    argument: &str,
    overlay: &str,
    children: &Vec<String>,
    r: Vec<String>,
)
    requires
        call_ensures(launch_arguments, (argument, overlay, children), r),
    ensures
        r@.len() == children@.len() + 2,
        r@[0]@ == argument@,
        r@[1]@ == overlay@,
        forall|i: int| 0 <= i < children@.len() ==> (#[trigger] children@[i])@ == r@[i + 2]@,
{
    let all = views_of(r@);
    assert(all.len() == r@.len());
    assert(all[0] == r@[0]@ && all[1] == r@[1]@);
    assert(views_of(children@).len() == children@.len());
    assert forall|i: int| 0 <= i < children@.len() implies (#[trigger] children@[i])@ == r@[i
        + 2]@ by {
        assert(all[i + 2] == views_of(children@)[i]);
    }
}

/// Only a file that may be run, and that is named by its canonical path, is launched.
pub proof fn only_canonical_files_are_launched(
    executable: &str,
    canonical: Option<&str>,
    target: Option<(bool, u32)>,
    r: Result<(), ManagedClaudeProcessError>,
)
    requires
        call_ensures(verify_claude_executable, (executable, canonical, target), r),
    ensures
        r is Ok <==> (canonical matches Some(path) && path@ == executable@) && (
        target matches Some((is_file, mode)) && is_file && mode & 0o111u32 != 0),
{
}

/// Which settings of a source decide routing or authentication: each by its own variable, and the
/// helper by its presence. A source conflicts by exactly those that it sets.
pub proof fn conflicts_name_what_a_source_sets(
    values: Seq<ObservedView>,
    at: int,
    field: AgentAuthRoutingFieldV1,
)
    requires
        0 <= at < values.len(),
    ensures
        ({
            let settings = values[at].settings;
            &&& fields_set(settings).contains(field) <==> match field {
                AgentAuthRoutingFieldV1::AnthropicApiKey => settings.env.present.contains(
                    "ANTHROPIC_API_KEY"@,
                ),
                AgentAuthRoutingFieldV1::AnthropicAuthToken => settings.env.present.contains(
                    "ANTHROPIC_AUTH_TOKEN"@,
                ),
                AgentAuthRoutingFieldV1::AnthropicBaseUrl => settings.env.present.contains(
                    "ANTHROPIC_BASE_URL"@,
                ),
                AgentAuthRoutingFieldV1::AnthropicCustomHeaders => settings.env.present.contains(
                    "ANTHROPIC_CUSTOM_HEADERS"@,
                ),
                AgentAuthRoutingFieldV1::AnthropicModel => settings.env.present.contains(
                    "ANTHROPIC_MODEL"@,
                ),
                AgentAuthRoutingFieldV1::ApiKeyHelper => settings.helper,
                AgentAuthRoutingFieldV1::Bedrock => settings.env.present.contains(
                    "CLAUDE_CODE_USE_BEDROCK"@,
                ),
                AgentAuthRoutingFieldV1::Foundry => settings.env.present.contains(
                    "CLAUDE_CODE_USE_FOUNDRY"@,
                ),
                AgentAuthRoutingFieldV1::Vertex => settings.env.present.contains(
                    "CLAUDE_CODE_USE_VERTEX"@,
                ),
            }
            &&& (values[at].layer == ConfigLayerV1::Launch || values[at].layer
                == ConfigLayerV1::Managed) && fields_set(settings).contains(field) ==> exists|k: int|
                0 <= k < conflicts_of(values).len() && (#[trigger] conflicts_of(
                    values,
                )[k]).source_ref == values[at].source_ref && conflicts_of(values)[k].layer
                    == values[at].layer && conflicts_of(values)[k].fields == fields_set(settings)
        }),
{
    let settings = values[at].settings;
    let keep = |other: AgentAuthRoutingFieldV1| sets_field(settings, other);
    assert(routing_fields().contains(field)) by {
        match field {
            AgentAuthRoutingFieldV1::AnthropicApiKey => assert(routing_fields()[0] == field),
            AgentAuthRoutingFieldV1::AnthropicAuthToken => assert(routing_fields()[1] == field),
            AgentAuthRoutingFieldV1::AnthropicBaseUrl => assert(routing_fields()[2] == field),
            AgentAuthRoutingFieldV1::AnthropicCustomHeaders => assert(routing_fields()[3] == field),
            AgentAuthRoutingFieldV1::AnthropicModel => assert(routing_fields()[4] == field),
            AgentAuthRoutingFieldV1::ApiKeyHelper => assert(routing_fields()[5] == field),
            AgentAuthRoutingFieldV1::Bedrock => assert(routing_fields()[6] == field),
            AgentAuthRoutingFieldV1::Foundry => assert(routing_fields()[7] == field),
            AgentAuthRoutingFieldV1::Vertex => assert(routing_fields()[8] == field),
        }
    }
    if sets_field(settings, field) {
        assert(keep(field));
        let k = choose|k: int| 0 <= k < routing_fields().len() && routing_fields()[k] == field;
        routing_fields().lemma_filter_contains(keep, k);
    }
    if fields_set(settings).contains(field) {
        routing_fields().lemma_filter_contains_rev(keep, field);
        let all = fields_set(settings);
        let k = choose|k: int| 0 <= k < all.len() && all[k] == field;
        assert(all.len() > 0);
        if values[at].layer == ConfigLayerV1::Launch || values[at].layer
            == ConfigLayerV1::Managed {
            lemma_conflict_kept(values, at);
        }
    }
}

proof fn lemma_conflict_kept(values: Seq<ObservedView>, at: int)
    requires
        0 <= at < values.len(),
        values[at].layer == ConfigLayerV1::Launch || values[at].layer == ConfigLayerV1::Managed,
        fields_set(values[at].settings).len() > 0,
    ensures
        exists|k: int|
            0 <= k < conflicts_of(values).len() && (#[trigger] conflicts_of(values)[k]).source_ref
                == values[at].source_ref && conflicts_of(values)[k].layer == values[at].layer
                && conflicts_of(values)[k].fields == fields_set(values[at].settings),
    decreases values.len(),
{
    let all = conflicts_of(values);
    let before = conflicts_of(values.drop_last());
    if at == values.len() - 1 {
        assert(all[all.len() - 1].source_ref == values[at].source_ref);
    } else {
        assert(values.drop_last()[at] == values[at]);
        lemma_conflict_kept(values.drop_last(), at);
        let k = choose|k: int|
            0 <= k < before.len() && (#[trigger] before[k]).source_ref == values[at].source_ref
                && before[k].layer == values[at].layer && before[k].fields == fields_set(
                values[at].settings,
            );
        assert(all[k] == before[k]);
    }
}

/// Nothing else conflicts: each conflict is of a launch's own settings or of managed policy, and of
/// a source that sets something. What other sources set never stops a launch.
pub proof fn only_policy_stops_a_launch(values: Seq<ObservedView>, k: int)
    requires
        0 <= k < conflicts_of(values).len(),
    ensures
        exists|at: int|
            0 <= at < values.len() && ((#[trigger] values[at]).layer == ConfigLayerV1::Launch
                || values[at].layer == ConfigLayerV1::Managed) && conflicts_of(values)[k].source_ref
                == values[at].source_ref && conflicts_of(values)[k].layer == values[at].layer
                && conflicts_of(values)[k].fields == fields_set(values[at].settings)
                && conflicts_of(values)[k].fields.len() > 0,
    decreases values.len(),
{
    let all = conflicts_of(values);
    let rest = values.drop_last();
    let before = conflicts_of(rest);
    if k < before.len() {
        assert(all[k] == before[k]);
        only_policy_stops_a_launch(rest, k);
        let at = choose|at: int|
            0 <= at < rest.len() && ((#[trigger] rest[at]).layer == ConfigLayerV1::Launch
                || rest[at].layer == ConfigLayerV1::Managed) && before[k].source_ref
                == rest[at].source_ref && before[k].layer == rest[at].layer && before[k].fields
                == fields_set(rest[at].settings) && before[k].fields.len() > 0;
        assert(values[at] == rest[at]);
    } else {
        assert(values[values.len() - 1] == values.last());
    }
}

/// A launch warns of exactly those variables that the process itself passes on and that the launch
/// takes out.
pub proof fn warnings_name_what_is_taken_out(
    values: Seq<ObservedView>,
    removals: Seq<Seq<char>>,
    name: Seq<char>,
)
    ensures
        inherited_of(values, removals).contains(name) <==> removals.contains(name) && exists|i: int|
            0 <= i < values.len() && (#[trigger] values[i]).layer == ConfigLayerV1::Process
                && values[i].settings.env.present.contains(name),
    decreases values.len(),
{
    if values.len() > 0 {
        let rest = values.drop_last();
        let last = values.last();
        let keep = |other: Seq<char>| removals.contains(other);
        let own = last.settings.env.present.filter(keep);
        let before = inherited_of(rest, removals);
        warnings_name_what_is_taken_out(rest, removals, name);
        assert(values[values.len() - 1] == last);
        assert forall|i: int| 0 <= i < rest.len() implies #[trigger] values[i] == rest[i] by {}
        if last.layer == ConfigLayerV1::Process {
            let all = before + own;
            if last.settings.env.present.contains(name) && removals.contains(name) {
                assert(keep(name));
                let at = choose|at: int|
                    0 <= at < last.settings.env.present.len() && last.settings.env.present[at]
                        == name;
                last.settings.env.present.lemma_filter_contains(keep, at);
                let k = choose|k: int| 0 <= k < own.len() && own[k] == name;
                assert(all[before.len() + k] == name);
            }
            if all.contains(name) {
                let k = choose|k: int| 0 <= k < all.len() && all[k] == name;
                if k >= before.len() {
                    assert(own[k - before.len()] == name);
                    last.settings.env.present.lemma_filter_contains_rev(keep, name);
                    assert(values[values.len() - 1].settings.env.present.contains(name));
                } else {
                    assert(before[k] == name);
                }
            }
            if before.contains(name) {
                let k = choose|k: int| 0 <= k < before.len() && before[k] == name;
                assert(all[k] == name);
            }
        }
        if exists|i: int|
            0 <= i < values.len() && (#[trigger] values[i]).layer == ConfigLayerV1::Process
                && values[i].settings.env.present.contains(name) {
            let i = choose|i: int|
                0 <= i < values.len() && (#[trigger] values[i]).layer == ConfigLayerV1::Process
                    && values[i].settings.env.present.contains(name);
            if i < rest.len() {
                assert(rest[i].settings.env.present.contains(name));
            }
        }
        if exists|i: int|
            0 <= i < rest.len() && (#[trigger] rest[i]).layer == ConfigLayerV1::Process
                && rest[i].settings.env.present.contains(name) {
            let i = choose|i: int|
                0 <= i < rest.len() && (#[trigger] rest[i]).layer == ConfigLayerV1::Process
                    && rest[i].settings.env.present.contains(name);
            assert(values[i].settings.env.present.contains(name));
        }
    }
}

} // verus!
