//! What is read of ClaudeCode's settings: routing, models, and whether credentials are there.

use vstd::prelude::*;
use crate::agents::claude_files::{
    metadata_revision, named, own_name, revision_from_digest, revision_of, settings_ref, source_ref, content_text,
    FileFacts,
};
use crate::agents::claude_observation::{copied_option, present};
use crate::agents::discovery::ConfigLayerV1;
use crate::agents::filesystem::AgentFilesystemScanError;
use crate::digest::{digest_of, CanonicalDigest};
use crate::text::{
    alphanumeric, bytes_in, byte_len, chars_of, debug_quoted, in_order, is_alphanumeric,
    join_texts, joined_with, ordered, ordered_lists_hold_the_same, quoted, same, strip_prefix, strip_suffix, after_prefix, before_suffix,
    views_of,
};

verus! {

/// The environment of a settings source. The names that are present, and the variables that bear
/// on the context window, stand in order.
#[derive(Debug)]
pub struct ClaudeEnvironmentSubset {
    pub context_environment: Vec<(String, String)>,
    pub base_url: Option<String>,
    pub model: Option<String>,
    pub default_opus_model: Option<String>,
    pub default_sonnet_model: Option<String>,
    pub default_haiku_model: Option<String>,
    pub small_fast_model: Option<String>,
    pub present_environment_fields: Vec<String>,
}

/// What is read of a settings source.
#[derive(Debug)]
pub struct ClaudeSettingsSubset {
    /// The initial selection, which is not one of the presets.
    pub model: Option<String>,
    pub env: ClaudeEnvironmentSubset,
    pub api_key_helper_present: bool,
}

pub struct EnvironmentView {
    pub context: Seq<(Seq<char>, Seq<char>)>,
    pub base_url: Option<Seq<char>>,
    pub model: Option<Seq<char>>,
    pub default_opus_model: Option<Seq<char>>,
    pub default_sonnet_model: Option<Seq<char>>,
    pub default_haiku_model: Option<Seq<char>>,
    pub small_fast_model: Option<Seq<char>>,
    pub present: Seq<Seq<char>>,
}

pub struct SettingsView {
    pub model: Option<Seq<char>>,
    pub env: EnvironmentView,
    pub helper: bool,
}

pub open spec fn maybe_text(text: Option<String>) -> Option<Seq<char>> {
    match text {
        Some(text) => Some(text@),
        None => None,
    }
}

pub open spec fn pairs_view(pairs: Seq<(String, String)>) -> Seq<(Seq<char>, Seq<char>)> {
    pairs.map_values(|pair: (String, String)| (pair.0@, pair.1@))
}

impl View for ClaudeEnvironmentSubset {
    type V = EnvironmentView;

    open spec fn view(&self) -> EnvironmentView {
        EnvironmentView {
            context: pairs_view(self.context_environment@),
            base_url: maybe_text(self.base_url),
            model: maybe_text(self.model),
            default_opus_model: maybe_text(self.default_opus_model),
            default_sonnet_model: maybe_text(self.default_sonnet_model),
            default_haiku_model: maybe_text(self.default_haiku_model),
            small_fast_model: maybe_text(self.small_fast_model),
            present: views_of(self.present_environment_fields@),
        }
    }
}

impl View for ClaudeSettingsSubset {
    type V = SettingsView;

    open spec fn view(&self) -> SettingsView {
        SettingsView {
            model: maybe_text(self.model),
            env: self.env@,
            helper: self.api_key_helper_present,
        }
    }
}

pub open spec fn empty_environment() -> EnvironmentView {
    EnvironmentView {
        context: Seq::empty(),
        base_url: None,
        model: None,
        default_opus_model: None,
        default_sonnet_model: None,
        default_haiku_model: None,
        small_fast_model: None,
        present: Seq::empty(),
    }
}

pub open spec fn empty_settings() -> SettingsView {
    SettingsView { model: None, env: empty_environment(), helper: false }
}

/// The variables whose presence is told, in order.
pub open spec fn told_names() -> Seq<Seq<char>> {
    seq![
        "ANTHROPIC_API_KEY"@,
        "ANTHROPIC_AUTH_TOKEN"@,
        "ANTHROPIC_BASE_URL"@,
        "ANTHROPIC_CUSTOM_HEADERS"@,
        "ANTHROPIC_DEFAULT_HAIKU_MODEL"@,
        "ANTHROPIC_DEFAULT_OPUS_MODEL"@,
        "ANTHROPIC_DEFAULT_SONNET_MODEL"@,
        "ANTHROPIC_MODEL"@,
        "ANTHROPIC_SMALL_FAST_MODEL"@,
        "CLAUDE_CODE_USE_BEDROCK"@,
        "CLAUDE_CODE_USE_FOUNDRY"@,
        "CLAUDE_CODE_USE_VERTEX"@,
    ]
}

fn told_list() -> (r: Vec<String>)
    ensures
        views_of(r@) == told_names(),
{
    let mut names: Vec<String> = Vec::new();
    names.push("ANTHROPIC_API_KEY".to_owned());
    names.push("ANTHROPIC_AUTH_TOKEN".to_owned());
    names.push("ANTHROPIC_BASE_URL".to_owned());
    names.push("ANTHROPIC_CUSTOM_HEADERS".to_owned());
    names.push("ANTHROPIC_DEFAULT_HAIKU_MODEL".to_owned());
    names.push("ANTHROPIC_DEFAULT_OPUS_MODEL".to_owned());
    names.push("ANTHROPIC_DEFAULT_SONNET_MODEL".to_owned());
    names.push("ANTHROPIC_MODEL".to_owned());
    names.push("ANTHROPIC_SMALL_FAST_MODEL".to_owned());
    names.push("CLAUDE_CODE_USE_BEDROCK".to_owned());
    names.push("CLAUDE_CODE_USE_FOUNDRY".to_owned());
    names.push("CLAUDE_CODE_USE_VERTEX".to_owned());
    assert(views_of(names@) =~= told_names());
    names
}

/// How a member of a settings text is read.
#[derive(Clone, Copy, Debug, PartialEq, Eq, Structural)]
pub enum SettingsForm {
    Text,
    Variables,
    Skipped,
}

/// A member of a settings text as its reader walked it: a text, the variables of an environment, of
/// which some are read as texts, or a value of any kind that was skipped.
#[derive(Debug)]
pub enum SettingsMember {
    Text(String),
    Variables(Vec<(String, Option<String>)>),
    Skipped,
}

/// The members of a settings text in their order. A name may stand there more than once.
#[derive(Debug)]
pub struct SettingsDocument {
    pub members: Vec<(String, SettingsMember)>,
}

/// Variables in their order, with the texts that were read.
pub type VariablesView = Seq<(Seq<char>, Option<Seq<char>>)>;

pub enum MemberView {
    Text(Seq<char>),
    Variables(VariablesView),
    Skipped,
}

pub open spec fn variables_read(variables: Seq<(String, Option<String>)>) -> VariablesView {
    variables.map_values(|pair: (String, Option<String>)| (pair.0@, maybe_text(pair.1)))
}

impl View for SettingsMember {
    type V = MemberView;

    open spec fn view(&self) -> MemberView {
        match self {
            SettingsMember::Text(text) => MemberView::Text(text@),
            SettingsMember::Variables(variables) => MemberView::Variables(
                variables_read(variables@),
            ),
            SettingsMember::Skipped => MemberView::Skipped,
        }
    }
}

impl View for SettingsDocument {
    type V = Seq<(Seq<char>, MemberView)>;

    open spec fn view(&self) -> Seq<(Seq<char>, MemberView)> {
        self.members@.map_values(|pair: (String, SettingsMember)| (pair.0@, pair.1@))
    }
}

/// The form in which a member of a settings text is read: the model is a text, the environment
/// variables, and anything else is skipped.
pub open spec fn form_of(name: Seq<char>) -> SettingsForm {
    if name == "model"@ {
        SettingsForm::Text
    } else if name == "env"@ {
        SettingsForm::Variables
    } else {
        SettingsForm::Skipped
    }
}

pub fn settings_form(name: &str) -> (r: SettingsForm)
    ensures
        r == form_of(name@),
{
    if same(name, "model") {
        SettingsForm::Text
    } else if same(name, "env") {
        SettingsForm::Variables
    } else {
        SettingsForm::Skipped
    }
}

pub open spec fn is_routing_name(name: Seq<char>) -> bool {
    name == "ANTHROPIC_BASE_URL"@ || name == "ANTHROPIC_MODEL"@ || name
        == "ANTHROPIC_DEFAULT_OPUS_MODEL"@ || name == "ANTHROPIC_DEFAULT_SONNET_MODEL"@ || name
        == "ANTHROPIC_DEFAULT_HAIKU_MODEL"@ || name == "ANTHROPIC_SMALL_FAST_MODEL"@
}

/// Whether a variable is read as a text: one that bears on the context window, of which
/// `conflicts` are the names, or on routing. Any other is skipped.
pub open spec fn reads_text(name: Seq<char>, conflicts: Seq<Seq<char>>) -> bool {
    conflicts.contains(name) || is_routing_name(name)
}

pub fn variable_is_text(name: &str, conflicts: &Vec<String>) -> (r: bool)
    ensures
        r == reads_text(name@, views_of(conflicts@)),
{
    present(conflicts, name) || same(name, "ANTHROPIC_BASE_URL") || same(name, "ANTHROPIC_MODEL")
        || same(name, "ANTHROPIC_DEFAULT_OPUS_MODEL") || same(
        name,
        "ANTHROPIC_DEFAULT_SONNET_MODEL",
    ) || same(name, "ANTHROPIC_DEFAULT_HAIKU_MODEL") || same(name, "ANTHROPIC_SMALL_FAST_MODEL")
}

/// What the last variable of a name says.
pub open spec fn variable_of(variables: VariablesView, name: Seq<char>) -> Option<
    Option<Seq<char>>,
>
    decreases variables.len(),
{
    if variables.len() == 0 {
        None
    } else if variables.last().0 == name {
        Some(variables.last().1)
    } else {
        variable_of(variables.drop_last(), name)
    }
}

/// The text of a variable that bears on routing and not on the context window.
pub open spec fn routing_text(
    variables: VariablesView,
    name: Seq<char>,
    conflicts: Seq<Seq<char>>,
) -> Option<Seq<char>> {
    if conflicts.contains(name) {
        None
    } else {
        match variable_of(variables, name) {
            Some(text) => text,
            None => None,
        }
    }
}

/// The names among some that are set.
pub open spec fn names_in(variables: VariablesView, names: Seq<Seq<char>>) -> Seq<Seq<char>> {
    names.filter(|name: Seq<char>| variable_of(variables, name) is Some)
}

pub open spec fn pairs_in(variables: VariablesView, names: Seq<Seq<char>>) -> Seq<
    (Seq<char>, Seq<char>),
> {
    names_in(variables, names).map_values(
        |name: Seq<char>| (name, variable_of(variables, name)->0->0),
    )
}

/// Whether every variable that is read as a text was read as one.
pub open spec fn texts_are_read(variables: VariablesView, conflicts: Seq<Seq<char>>) -> bool {
    forall|i: int|
        0 <= i < variables.len() && reads_text((#[trigger] variables[i]).0, conflicts)
            ==> variables[i].1 is Some
}

/// The names whose presence is told and that do not bear on the context window, in order.
pub open spec fn told_besides(conflicts: Seq<Seq<char>>) -> Seq<Seq<char>> {
    told_names().filter(|name: Seq<char>| !conflicts.contains(name))
}

/// The environment that a settings file holds. A variable that is set again counts as it was set
/// last.
pub open spec fn environment_of(variables: VariablesView, conflicts: Seq<Seq<char>>) -> Option<
    EnvironmentView,
> {
    if texts_are_read(variables, conflicts) {
        Some(
            EnvironmentView {
                context: pairs_in(variables, in_order(conflicts)),
                base_url: routing_text(variables, "ANTHROPIC_BASE_URL"@, conflicts),
                model: routing_text(variables, "ANTHROPIC_MODEL"@, conflicts),
                default_opus_model: routing_text(
                    variables,
                    "ANTHROPIC_DEFAULT_OPUS_MODEL"@,
                    conflicts,
                ),
                default_sonnet_model: routing_text(
                    variables,
                    "ANTHROPIC_DEFAULT_SONNET_MODEL"@,
                    conflicts,
                ),
                default_haiku_model: routing_text(
                    variables,
                    "ANTHROPIC_DEFAULT_HAIKU_MODEL"@,
                    conflicts,
                ),
                small_fast_model: routing_text(
                    variables,
                    "ANTHROPIC_SMALL_FAST_MODEL"@,
                    conflicts,
                ),
                present: names_in(variables, told_besides(conflicts)),
            },
        )
    } else {
        None
    }
}

/// The first member of a name.
pub open spec fn member_named(document: Seq<(Seq<char>, MemberView)>, name: Seq<char>) -> Option<
    MemberView,
>
    decreases document.len(),
{
    if document.len() == 0 {
        None
    } else {
        match member_named(document.drop_last(), name) {
            Some(member) => Some(member),
            None => if document.last().0 == name {
                Some(document.last().1)
            } else {
                None
            },
        }
    }
}

/// Whether a name that is read stands in a document twice.
pub open spec fn is_repeated(document: Seq<(Seq<char>, MemberView)>, name: Seq<char>) -> bool {
    exists|i: int, j: int|
        0 <= i < j < document.len() && (#[trigger] document[i]).0 == name && (
        #[trigger] document[j]).0 == name
}

/// What is read of a settings text. It may have its model and its environment once each; whatever
/// else it holds is skipped, and of a helper only the presence is told.
pub open spec fn settings_of(
    document: Seq<(Seq<char>, MemberView)>,
    conflicts: Seq<Seq<char>>,
) -> Option<SettingsView> {
    if is_repeated(document, "model"@) || is_repeated(document, "env"@) {
        None
    } else {
        let model = match member_named(document, "model"@) {
            None => Some(None),
            Some(MemberView::Text(text)) => Some(Some(text)),
            _ => None,
        };
        let env = match member_named(document, "env"@) {
            None => Some(empty_environment()),
            Some(MemberView::Variables(variables)) => environment_of(variables, conflicts),
            _ => None,
        };
        match (model, env) {
            (Some(model), Some(env)) => Some(
                SettingsView {
                    model,
                    env,
                    helper: member_named(document, "apiKeyHelper"@) is Some,
                },
            ),
            _ => None,
        }
    }
}

fn find_variable(variables: &Vec<(String, Option<String>)>, name: &str) -> (r: Option<
    Option<String>,
>)
    ensures
        (match r {
            Some(text) => Some(maybe_text(text)),
            None => None,
        }) == variable_of(variables_read(variables@), name@),
{
    let ghost all = variables_read(variables@);
    let mut k: usize = variables.len();
    assert(all.take(k as int) == all);
    while k > 0
        invariant
            k <= variables.len(),
            all == variables_read(variables@),
            variable_of(all, name@) == variable_of(all.take(k as int), name@),
        decreases k,
    {
        let (other, text) = &variables[k - 1];
        proof {
            assert(all.take(k as int).last() == (other@, maybe_text(*text)));
            assert(all.take(k as int).drop_last() == all.take(k - 1));
        }
        if same(other.as_str(), name) {
            return Some(copied_option(text));
        }
        k -= 1;
    }
    None
}

fn read_routing(
    variables: &Vec<(String, Option<String>)>,
    name: &str,
    conflicts: &Vec<String>,
) -> (r: Option<String>)
    ensures
        maybe_text(r) == routing_text(variables_read(variables@), name@, views_of(conflicts@)),
{
    if present(conflicts, name) {
        return None;
    }
    match find_variable(variables, name) {
        Some(text) => text,
        None => None,
    }
}

fn told_list_besides(conflicts: &Vec<String>) -> (r: Vec<String>)
    ensures
        views_of(r@) == told_besides(views_of(conflicts@)),
{
    let names = told_list();
    let ghost all = told_names();
    let ghost given = views_of(conflicts@);
    let ghost keep = |name: Seq<char>| !given.contains(name);
    let mut out: Vec<String> = Vec::new();
    let mut i: usize = 0;
    proof {
        reveal(Seq::filter);
        assert(all.take(0).filter(keep) =~= Seq::<Seq<char>>::empty());
        assert(views_of(out@) =~= Seq::<Seq<char>>::empty());
    }
    while i < names.len()
        invariant
            i <= names.len(),
            all == views_of(names@),
            given == views_of(conflicts@),
            keep == (|name: Seq<char>| !given.contains(name)),
            views_of(out@) == all.take(i as int).filter(keep),
        decreases names.len() - i,
    {
        let ghost before = views_of(out@);
        proof {
            reveal(Seq::filter);
            assert(all.take(i + 1).drop_last() == all.take(i as int));
            assert(all.take(i + 1).last() == names@[i as int]@);
        }
        if !present(conflicts, names[i].as_str()) {
            assert(keep(names@[i as int]@));
            out.push(names[i].clone());
            assert(views_of(out@) =~= before.push(names@[i as int]@));
        } else {
            assert(!keep(names@[i as int]@));
        }
        i += 1;
    }
    assert(all.take(i as int) == all);
    out
}

fn read_present(variables: &Vec<(String, Option<String>)>, conflicts: &Vec<String>) -> (r: Vec<
    String,
>)
    ensures
        views_of(r@) == names_in(
            variables_read(variables@),
            told_besides(views_of(conflicts@)),
        ),
{
    let names = told_list_besides(conflicts);
    let ghost env = variables_read(variables@);
    let ghost all = views_of(names@);
    let ghost keep = |name: Seq<char>| variable_of(env, name) is Some;
    let mut out: Vec<String> = Vec::new();
    let mut i: usize = 0;
    proof {
        reveal(Seq::filter);
        assert(all.take(0).filter(keep) =~= Seq::<Seq<char>>::empty());
        assert(views_of(out@) =~= Seq::<Seq<char>>::empty());
    }
    while i < names.len()
        invariant
            i <= names.len(),
            env == variables_read(variables@),
            all == views_of(names@),
            keep == (|name: Seq<char>| variable_of(env, name) is Some),
            views_of(out@) == all.take(i as int).filter(keep),
        decreases names.len() - i,
    {
        let ghost before = views_of(out@);
        proof {
            reveal(Seq::filter);
            assert(all.take(i + 1).drop_last() == all.take(i as int));
            assert(all.take(i + 1).last() == names@[i as int]@);
        }
        if find_variable(variables, names[i].as_str()).is_some() {
            assert(keep(names@[i as int]@));
            out.push(names[i].clone());
            assert(views_of(out@) =~= before.push(names@[i as int]@));
        } else {
            assert(!keep(names@[i as int]@));
        }
        i += 1;
    }
    assert(all.take(i as int) == all);
    out
}

proof fn lemma_read_text(variables: VariablesView, name: Seq<char>, conflicts: Seq<Seq<char>>)
    requires
        texts_are_read(variables, conflicts),
        reads_text(name, conflicts),
    ensures
        variable_of(variables, name) matches Some(text) ==> text is Some,
    decreases variables.len(),
{
    if variables.len() > 0 {
        let init = variables.drop_last();
        assert(forall|i: int| 0 <= i < init.len() ==> init[i] == variables[i]);
        lemma_read_text(init, name, conflicts);
        assert(variables[variables.len() - 1] == variables.last());
    }
}

fn read_context(variables: &Vec<(String, Option<String>)>, conflicts: &Vec<String>) -> (r: Vec<
    (String, String),
>)
    requires
        texts_are_read(variables_read(variables@), views_of(conflicts@)),
    ensures
        pairs_view(r@) == pairs_in(variables_read(variables@), in_order(views_of(conflicts@))),
{
    let names = ordered(conflicts);
    let ghost env = variables_read(variables@);
    let ghost given = views_of(conflicts@);
    let ghost all = in_order(given);
    let ghost keep = |name: Seq<char>| variable_of(env, name) is Some;
    let ghost pair = |name: Seq<char>| (name, variable_of(env, name)->0->0);
    let mut out: Vec<(String, String)> = Vec::new();
    let mut i: usize = 0;
    proof {
        reveal(Seq::filter);
        ordered_lists_hold_the_same(given);
        assert(all.take(0).filter(keep).map_values(pair) =~= Seq::<(Seq<char>, Seq<char>)>::empty());
        assert(pairs_view(out@) =~= Seq::<(Seq<char>, Seq<char>)>::empty());
    }
    while i < names.len()
        invariant
            i <= names.len(),
            env == variables_read(variables@),
            given == views_of(conflicts@),
            all == views_of(names@),
            texts_are_read(env, given),
            forall|text: Seq<char>| #[trigger] all.contains(text) <==> given.contains(text),
            keep == (|name: Seq<char>| variable_of(env, name) is Some),
            pair == (|name: Seq<char>| (name, variable_of(env, name)->0->0)),
            pairs_view(out@) == all.take(i as int).filter(keep).map_values(pair),
        decreases names.len() - i,
    {
        let name = names[i].as_str();
        let ghost before = pairs_view(out@);
        let ghost so_far = all.take(i as int).filter(keep);
        proof {
            reveal(Seq::filter);
            assert(all[i as int] == name@);
            assert(all.contains(name@));
            assert(all.take(i + 1).drop_last() == all.take(i as int));
            assert(all.take(i + 1).last() == name@);
            lemma_read_text(env, name@, given);
        }
        match find_variable(variables, name) {
            Some(Some(text)) => {
                proof {
                    assert(keep(name@));
                    assert(so_far.push(name@).map_values(pair) =~= so_far.map_values(pair).push(
                        (name@, text@),
                    ));
                }
                out.push((name.to_owned(), text));
                assert(pairs_view(out@) =~= before.push((name@, text@)));
            },
            _ => {
                assert(!keep(name@));
            },
        }
        i += 1;
    }
    assert(all.take(i as int) == all);
    out
}

fn all_texts_read(variables: &Vec<(String, Option<String>)>, conflicts: &Vec<String>) -> (r: bool)
    ensures
        r == texts_are_read(variables_read(variables@), views_of(conflicts@)),
{
    let ghost all = variables_read(variables@);
    let ghost given = views_of(conflicts@);
    let mut i: usize = 0;
    while i < variables.len()
        invariant
            i <= variables.len(),
            all == variables_read(variables@),
            given == views_of(conflicts@),
            forall|j: int|
                0 <= j < i && reads_text((#[trigger] all[j]).0, given) ==> all[j].1 is Some,
        decreases variables.len() - i,
    {
        assert(all[i as int] == (variables@[i as int].0@, maybe_text(variables@[i as int].1)));
        if variables[i].1.is_none() && variable_is_text(variables[i].0.as_str(), conflicts) {
            return false;
        }
        i += 1;
    }
    true
}

fn read_environment(variables: &Vec<(String, Option<String>)>, conflicts: &Vec<String>) -> (r:
    Option<ClaudeEnvironmentSubset>)
    ensures
        match environment_of(variables_read(variables@), views_of(conflicts@)) {
            Some(view) => r matches Some(env) && env@ == view,
            None => r is None,
        },
{
    if !all_texts_read(variables, conflicts) {
        return None;
    }
    Some(
        ClaudeEnvironmentSubset {
            context_environment: read_context(variables, conflicts),
            base_url: read_routing(variables, "ANTHROPIC_BASE_URL", conflicts),
            model: read_routing(variables, "ANTHROPIC_MODEL", conflicts),
            default_opus_model: read_routing(variables, "ANTHROPIC_DEFAULT_OPUS_MODEL", conflicts),
            default_sonnet_model: read_routing(
                variables,
                "ANTHROPIC_DEFAULT_SONNET_MODEL",
                conflicts,
            ),
            default_haiku_model: read_routing(
                variables,
                "ANTHROPIC_DEFAULT_HAIKU_MODEL",
                conflicts,
            ),
            small_fast_model: read_routing(variables, "ANTHROPIC_SMALL_FAST_MODEL", conflicts),
            present_environment_fields: read_present(variables, conflicts),
        },
    )
}

pub fn no_environment() -> (r: ClaudeEnvironmentSubset)
    ensures
        r@ == empty_environment(),
{
    let env = ClaudeEnvironmentSubset {
        context_environment: Vec::new(),
        base_url: None,
        model: None,
        default_opus_model: None,
        default_sonnet_model: None,
        default_haiku_model: None,
        small_fast_model: None,
        present_environment_fields: Vec::new(),
    };
    assert(env@.context =~= Seq::<(Seq<char>, Seq<char>)>::empty());
    assert(env@.present =~= Seq::<Seq<char>>::empty());
    env
}

/// The place of the first member of a name, and whether another of that name follows.
fn find_named(document: &SettingsDocument, name: &str) -> (r: (Option<usize>, bool))
    ensures
        match r.0 {
            Some(i) => i < document.members@.len() && member_named(document@, name@) == Some(
                document@[i as int].1,
            ),
            None => member_named(document@, name@) is None,
        },
        r.1 == is_repeated(document@, name@),
{
    let ghost all = document@;
    let mut first: Option<usize> = None;
    let mut again = false;
    let mut i: usize = 0;
    assert(all.take(0) =~= Seq::<(Seq<char>, MemberView)>::empty());
    while i < document.members.len()
        invariant
            i <= document.members.len(),
            all == document@,
            all.len() == document.members.len(),
            match first {
                Some(k) => k < i && all[k as int].0 == name@ && member_named(
                    all.take(i as int),
                    name@,
                ) == Some(all[k as int].1),
                None => member_named(all.take(i as int), name@) is None && forall|j: int|
                    0 <= j < i ==> (#[trigger] all[j]).0 != name@,
            },
            again ==> is_repeated(all, name@),
            !again ==> forall|a: int, b: int|
                0 <= a < b < i ==> !((#[trigger] all[a]).0 == name@ && (#[trigger] all[b]).0
                    == name@),
            !again ==> (first matches Some(k) ==> forall|j: int|
                0 <= j < i && (#[trigger] all[j]).0 == name@ ==> j == k),
        decreases document.members.len() - i,
    {
        proof {
            assert(all[i as int].0 == document.members@[i as int].0@);
            assert(all.take(i + 1).drop_last() == all.take(i as int));
            assert(all.take(i + 1).last() == all[i as int]);
        }
        if same(document.members[i].0.as_str(), name) {
            match first {
                Some(k) => {
                    assert(all[k as int].0 == name@ && all[i as int].0 == name@);
                    again = true;
                },
                None => {
                    first = Some(i);
                },
            }
        }
        i += 1;
    }
    assert(all.take(i as int) == all);
    (first, again)
}

/// Reads the settings of a document.
pub fn read_settings(document: &SettingsDocument, conflicts: &Vec<String>) -> (r: Option<
    ClaudeSettingsSubset,
>)
    ensures
        match settings_of(document@, views_of(conflicts@)) {
            Some(view) => r matches Some(settings) && settings@ == view,
            None => r is None,
        },
{
    let (model_at, model_again) = find_named(document, "model");
    let (env_at, env_again) = find_named(document, "env");
    if model_again || env_again {
        return None;
    }
    let model = match model_at {
        None => None,
        Some(i) => {
            assert(document@[i as int].1 == document.members@[i as int].1@);
            match &document.members[i].1 {
                SettingsMember::Text(text) => Some(text.clone()),
                _ => return None,
            }
        },
    };
    let env = match env_at {
        None => no_environment(),
        Some(i) => {
            assert(document@[i as int].1 == document.members@[i as int].1@);
            match &document.members[i].1 {
                SettingsMember::Variables(variables) => match read_environment(
                    variables,
                    conflicts,
                ) {
                    Some(env) => env,
                    None => return None,
                },
                _ => return None,
            }
        },
    };
    let (helper_at, _) = find_named(document, "apiKeyHelper");
    Some(ClaudeSettingsSubset { model, env, api_key_helper_present: helper_at.is_some() })
}

/// A settings source as it was observed.
#[derive(Debug)]
pub struct ObservedClaudeSettings {
    pub layer: ConfigLayerV1,
    pub revision: u64,
    pub digest: CanonicalDigest,
    pub source_ref: String,
    pub settings: ClaudeSettingsSubset,
}

pub struct ObservedView {
    pub layer: ConfigLayerV1,
    pub revision: u64,
    pub digest: Seq<char>,
    pub source_ref: Seq<char>,
    pub settings: SettingsView,
}

impl View for ObservedClaudeSettings {
    type V = ObservedView;

    open spec fn view(&self) -> ObservedView {
        ObservedView {
            layer: self.layer,
            revision: self.revision,
            digest: self.digest@,
            source_ref: self.source_ref@,
            settings: self.settings@,
        }
    }
}

pub open spec fn or_empty(text: Option<Seq<char>>) -> Seq<char> {
    match text {
        Some(text) => text,
        None => Seq::empty(),
    }
}

pub open spec fn flag_text(value: bool) -> Seq<char> {
    if value {
        "true"@
    } else {
        "false"@
    }
}

/// What the identity of a process environment was made of before the context window was read.
pub open spec fn settings_text(settings: SettingsView) -> Seq<char> {
    or_empty(settings.env.base_url) + "\0"@ + or_empty(settings.env.model) + "\0"@ + or_empty(
        settings.env.default_opus_model,
    ) + "\0"@ + joined_with(settings.env.present, ","@) + "\0"@ + flag_text(settings.helper)
}

/// Names and values as `Debug` prints a map of strings.
pub open spec fn quoted_pairs(pairs: Seq<(Seq<char>, Seq<char>)>) -> Seq<Seq<char>> {
    pairs.map_values(
        |pair: (Seq<char>, Seq<char>)| quoted(pair.0) + ": "@ + quoted(pair.1),
    )
}

pub open spec fn context_text(pairs: Seq<(Seq<char>, Seq<char>)>) -> Seq<char> {
    "{"@ + joined_with(quoted_pairs(pairs), ", "@) + "}"@
}

/// The identity of a process environment. Values of credentials do not enter it.
pub open spec fn process_identity(settings: SettingsView) -> Seq<char> {
    digest_of(
        vstd::utf8::encode_utf8(
            settings_text(settings) + "\0"@ + context_text(settings.env.context),
        ),
    )
}

pub open spec fn earlier_process_identity(settings: SettingsView) -> Seq<char> {
    digest_of(vstd::utf8::encode_utf8(settings_text(settings)))
}

fn append_option(text: &mut String, value: &Option<String>)
    ensures
        final(text)@ == old(text)@ + or_empty(maybe_text(*value)),
{
    match value {
        Some(value) => text.append(value.as_str()),
        None => {
            assert(text@ + Seq::<char>::empty() =~= text@);
        },
    }
}

fn identity_text(settings: &ClaudeSettingsSubset) -> (r: String)
    ensures
        r@ == settings_text(settings@),
{
    let mut text = String::new();
    append_option(&mut text, &settings.env.base_url);
    assert(text@ =~= or_empty(settings@.env.base_url));
    text.append("\0");
    append_option(&mut text, &settings.env.model);
    text.append("\0");
    append_option(&mut text, &settings.env.default_opus_model);
    text.append("\0");
    text.append(join_texts(&settings.env.present_environment_fields, ",").as_str());
    text.append("\0");
    text.append(
        if settings.api_key_helper_present {
            "true"
        } else {
            "false"
        },
    );
    text
}

fn context_debug(pairs: &Vec<(String, String)>) -> (r: String)
    ensures
        r@ == context_text(pairs_view(pairs@)),
{
    let ghost all = quoted_pairs(pairs_view(pairs@));
    let mut parts: Vec<String> = Vec::new();
    let mut i: usize = 0;
    assert(views_of(parts@) =~= all.take(0));
    while i < pairs.len()
        invariant
            i <= pairs.len(),
            all == quoted_pairs(pairs_view(pairs@)),
            views_of(parts@) == all.take(i as int),
        decreases pairs.len() - i,
    {
        let ghost before = views_of(parts@);
        let mut part = debug_quoted(pairs[i].0.as_str());
        part.append(": ");
        part.append(debug_quoted(pairs[i].1.as_str()).as_str());
        parts.push(part);
        proof {
            assert(views_of(parts@) =~= before.push(all[i as int]));
            assert(all.take(i + 1) =~= all.take(i as int).push(all[i as int]));
        }
        i += 1;
    }
    assert(all.take(i as int) == all);
    let mut text = "{".to_owned();
    text.append(join_texts(&parts, ", ").as_str());
    text.append("}");
    text
}

pub fn safe_settings_digest(settings: &ClaudeSettingsSubset) -> (r: CanonicalDigest)
    ensures
        r@ == process_identity(settings@),
{
    let mut text = identity_text(settings);
    text.append("\0");
    text.append(context_debug(&settings.env.context_environment).as_str());
    CanonicalDigest::of_bytes(text.as_str().as_bytes())
}

/// Gives a process observation without context settings the identity that such an observation had
/// before those were read. Only recovery uses it; an observation with context settings keeps the
/// identity that covers them.
pub fn recover_pre_context_process_digest(observed: &mut ObservedClaudeSettings)
    ensures
        final(observed)@ == (if old(observed)@.layer != ConfigLayerV1::Process || old(
            observed,
        )@.settings.env.context.len() > 0 {
            old(observed)@
        } else {
            ObservedView {
                digest: earlier_process_identity(old(observed)@.settings),
                revision: revision_of(earlier_process_identity(old(observed)@.settings)) as u64,
                ..old(observed)@
            }
        }),
{
    if observed.layer != ConfigLayerV1::Process || observed.settings.env.context_environment.len()
        > 0 {
        return;
    }
    let digest = CanonicalDigest::of_bytes(identity_text(&observed.settings).as_str().as_bytes());
    observed.revision = revision_from_digest(&digest);
    observed.digest = digest;
}

/// The value of a variable of the process.
pub open spec fn process_value(process: Seq<(Seq<char>, Seq<char>)>, name: Seq<char>) -> Option<
    Seq<char>,
>
    decreases process.len(),
{
    if process.len() == 0 {
        None
    } else if process[0].0 == name {
        Some(process[0].1)
    } else {
        process_value(process.skip(1), name)
    }
}

pub fn find_process_value(process: &Vec<(String, String)>, name: &str) -> (r: Option<String>)
    ensures
        maybe_text(r) == process_value(pairs_view(process@), name@),
{
    let ghost all = pairs_view(process@);
    let mut i: usize = 0;
    assert(all.skip(0) == all);
    while i < process.len()
        invariant
            i <= process.len(),
            all == pairs_view(process@),
            process_value(all, name@) == process_value(all.skip(i as int), name@),
        decreases process.len() - i,
    {
        proof {
            assert(all.skip(i as int)[0] == all[i as int]);
            assert(all.skip(i as int).skip(1) == all.skip(i + 1));
        }
        if same(process[i].0.as_str(), name) {
            return Some(process[i].1.clone());
        }
        i += 1;
    }
    None
}

pub open spec fn process_context(
    process: Seq<(Seq<char>, Seq<char>)>,
    conflicts: Seq<Seq<char>>,
) -> Seq<(Seq<char>, Seq<char>)> {
    in_order(conflicts).filter(|name: Seq<char>| process_value(process, name) is Some).map_values(
        |name: Seq<char>| (name, process_value(process, name)->0),
    )
}

/// What is read of the process environment. `presence` are the managed variables that are set.
pub open spec fn process_settings_of(
    process: Seq<(Seq<char>, Seq<char>)>,
    presence: Seq<Seq<char>>,
    conflicts: Seq<Seq<char>>,
) -> SettingsView {
    SettingsView {
        model: None,
        env: EnvironmentView {
            context: process_context(process, conflicts),
            base_url: process_value(process, "ANTHROPIC_BASE_URL"@),
            model: process_value(process, "ANTHROPIC_MODEL"@),
            default_opus_model: process_value(process, "ANTHROPIC_DEFAULT_OPUS_MODEL"@),
            default_sonnet_model: process_value(process, "ANTHROPIC_DEFAULT_SONNET_MODEL"@),
            default_haiku_model: process_value(process, "ANTHROPIC_DEFAULT_HAIKU_MODEL"@),
            small_fast_model: process_value(process, "ANTHROPIC_SMALL_FAST_MODEL"@),
            present: in_order(presence),
        },
        helper: false,
    }
}

fn read_process_context(process: &Vec<(String, String)>, conflicts: &Vec<String>) -> (r: Vec<
    (String, String),
>)
    ensures
        pairs_view(r@) == process_context(pairs_view(process@), views_of(conflicts@)),
{
    let ghost given = pairs_view(process@);
    let names = ordered(conflicts);
    let ghost all = views_of(names@);
    let ghost keep = |name: Seq<char>| process_value(given, name) is Some;
    let ghost pair = |name: Seq<char>| (name, process_value(given, name)->0);
    let mut out: Vec<(String, String)> = Vec::new();
    let mut i: usize = 0;
    proof {
        reveal(Seq::filter);
        assert(all.take(0).filter(keep).map_values(pair) =~= Seq::<(Seq<char>, Seq<char>)>::empty());
        assert(pairs_view(out@) =~= Seq::<(Seq<char>, Seq<char>)>::empty());
    }
    while i < names.len()
        invariant
            i <= names.len(),
            given == pairs_view(process@),
            all == views_of(names@),
            keep == (|name: Seq<char>| process_value(given, name) is Some),
            pair == (|name: Seq<char>| (name, process_value(given, name)->0)),
            pairs_view(out@) == all.take(i as int).filter(keep).map_values(pair),
        decreases names.len() - i,
    {
        let name = names[i].as_str();
        let ghost before = pairs_view(out@);
        let ghost so_far = all.take(i as int).filter(keep);
        proof {
            reveal(Seq::filter);
            assert(all.take(i + 1).drop_last() == all.take(i as int));
            assert(all.take(i + 1).last() == name@);
        }
        match find_process_value(process, name) {
            Some(text) => {
                proof {
                    assert(keep(name@));
                    assert(so_far.push(name@).map_values(pair) =~= so_far.map_values(pair).push(
                        (name@, text@),
                    ));
                }
                out.push((name.to_owned(), text));
                assert(pairs_view(out@) =~= before.push((name@, text@)));
            },
            None => {
                assert(!keep(name@));
            },
        }
        i += 1;
    }
    assert(all.take(i as int) == all);
    out
}

pub(crate) fn copied_texts(texts: &Vec<String>) -> (r: Vec<String>)
    ensures
        views_of(r@) == views_of(texts@),
{
    let mut out: Vec<String> = Vec::new();
    let mut i: usize = 0;
    let ghost all = views_of(texts@);
    assert(views_of(out@) =~= all.take(0));
    while i < texts.len()
        invariant
            i <= texts.len(),
            all == views_of(texts@),
            views_of(out@) == all.take(i as int),
        decreases texts.len() - i,
    {
        let ghost before = views_of(out@);
        out.push(texts[i].clone());
        proof {
            assert(views_of(out@) =~= before.push(all[i as int]));
            assert(all.take(i + 1) =~= all.take(i as int).push(all[i as int]));
        }
        i += 1;
    }
    assert(all.take(i as int) == all);
    out
}

pub fn process_settings(
    process: &Vec<(String, String)>,
    presence: &Vec<String>,
    conflicts: &Vec<String>,
) -> (r: ClaudeSettingsSubset)
    ensures
        r@ == process_settings_of(pairs_view(process@), views_of(presence@), views_of(conflicts@)),
{
    ClaudeSettingsSubset {
        model: None,
        env: ClaudeEnvironmentSubset {
            context_environment: read_process_context(process, conflicts),
            base_url: find_process_value(process, "ANTHROPIC_BASE_URL"),
            model: find_process_value(process, "ANTHROPIC_MODEL"),
            default_opus_model: find_process_value(process, "ANTHROPIC_DEFAULT_OPUS_MODEL"),
            default_sonnet_model: find_process_value(process, "ANTHROPIC_DEFAULT_SONNET_MODEL"),
            default_haiku_model: find_process_value(process, "ANTHROPIC_DEFAULT_HAIKU_MODEL"),
            small_fast_model: find_process_value(process, "ANTHROPIC_SMALL_FAST_MODEL"),
            present_environment_fields: ordered(presence),
        },
        api_key_helper_present: false,
    }
}

/// The reference of the process environment.
pub open spec fn process_ref() -> Seq<char> {
    own_name() + "/process-environment"@
}

/// The digest of a settings file that is absent.
pub open spec fn absent_digest() -> Seq<char> {
    digest_of(vstd::utf8::encode_utf8("absent-"@ + own_name() + "-settings"@))
}

/// Where settings are read from.
#[derive(Debug)]
pub enum ClaudeSource {
    Process,
    File(ConfigLayerV1, String),
}

pub open spec fn source_ref_of(source: ClaudeSource) -> Seq<char> {
    match source {
        ClaudeSource::Process => process_ref(),
        ClaudeSource::File(layer, path) => settings_ref(path@, layer),
    }
}

impl ClaudeSource {
    pub fn source_ref(&self) -> (r: String)
        ensures
            r@ == source_ref_of(*self),
    {
        match self {
            ClaudeSource::Process => named("/process-environment"),
            ClaudeSource::File(layer, path) => source_ref(path.as_str(), *layer),
        }
    }
}

/// The process environment as a settings source.
pub fn observe_process(
    process: &Vec<(String, String)>,
    presence: &Vec<String>,
    conflicts: &Vec<String>,
) -> (r: ObservedClaudeSettings)
    ensures
        ({
            let settings = process_settings_of(
                pairs_view(process@),
                views_of(presence@),
                views_of(conflicts@),
            );
            r@ == (ObservedView {
                layer: ConfigLayerV1::Process,
                revision: revision_of(process_identity(settings)) as u64,
                digest: process_identity(settings),
                source_ref: process_ref(),
                settings,
            })
        }),
{
    let settings = process_settings(process, presence, conflicts);
    let digest = safe_settings_digest(&settings);
    ObservedClaudeSettings {
        layer: ConfigLayerV1::Process,
        revision: revision_from_digest(&digest),
        digest,
        source_ref: named("/process-environment"),
        settings,
    }
}

/// What reading a settings file gave: its bytes, its facts, and its members as the settings reader
/// walked them, which are none where the text is no object or a member has another form than it is
/// read in.
#[derive(Debug)]
pub struct SettingsRead {
    pub bytes: Vec<u8>,
    pub file: FileFacts,
    pub document: Option<SettingsDocument>,
}

/// What a settings file says, as a source.
pub open spec fn observed_file(
    layer: ConfigLayerV1,
    path: Seq<char>,
    read: Option<SettingsRead>,
    conflicts: Seq<Seq<char>>,
) -> Option<ObservedView> {
    match read {
        None => Some(
            ObservedView {
                layer,
                revision: 0,
                digest: absent_digest(),
                source_ref: settings_ref(path, layer),
                settings: empty_settings(),
            },
        ),
        Some(read) => {
            let settings = match read.document {
                Some(document) => settings_of(document@, conflicts),
                None => None,
            };
            match settings {
                Some(settings) => Some(
                    ObservedView {
                        layer,
                        revision: revision_of(
                            digest_of(
                                vstd::utf8::encode_utf8(
                                    content_text(read.file, digest_of(read.bytes@)),
                                ),
                            ),
                        ) as u64,
                        digest: digest_of(read.bytes@),
                        source_ref: settings_ref(path, layer),
                        settings,
                    },
                ),
                None => None,
            }
        },
    }
}

/// A settings file as a source. An absent one is empty.
pub fn observe_file(
    layer: ConfigLayerV1,
    path: &str,
    read: &Result<Option<SettingsRead>, AgentFilesystemScanError>,
    conflicts: &Vec<String>,
) -> (r: Result<ObservedClaudeSettings, AgentFilesystemScanError>)
    ensures
        match *read {
            Err(failure) => r matches Err(error) && error == failure,
            Ok(read) => match observed_file(layer, path@, read, views_of(conflicts@)) {
                Some(view) => r matches Ok(observed) && observed@ == view,
                None => r matches Err(error) && error == AgentFilesystemScanError::InvalidConfig,
            },
        },
{
    let read = match read {
        Err(error) => return Err(*error),
        Ok(None) => {
            let mut absent = "absent-".to_owned();
            absent.append(named("-settings").as_str());
            assert(absent@ =~= "absent-"@ + own_name() + "-settings"@);
            return Ok(
                ObservedClaudeSettings {
                    layer,
                    revision: 0,
                    digest: CanonicalDigest::of_bytes(absent.as_str().as_bytes()),
                    source_ref: source_ref(path, layer),
                    settings: ClaudeSettingsSubset {
                        model: None,
                        env: no_environment(),
                        api_key_helper_present: false,
                    },
                },
            );
        },
        Ok(Some(read)) => read,
    };
    let digest = CanonicalDigest::of_bytes(read.bytes.as_slice());
    let settings = match &read.document {
        Some(document) => read_settings(document, conflicts),
        None => None,
    };
    match settings {
        Some(settings) => {
            let revision = metadata_revision(&read.file, &digest);
            Ok(
                ObservedClaudeSettings {
                    layer,
                    revision,
                    digest,
                    source_ref: source_ref(path, layer),
                    settings,
                },
            )
        },
        None => Err(AgentFilesystemScanError::InvalidConfig),
    }
}

/// What follows the dollar sign of a token, without braces.
pub open spec fn referred_part(value: Seq<char>) -> Option<Seq<char>> {
    match after_prefix(value, "${"@) {
        Some(rest) => match before_suffix(rest, "}"@) {
            Some(name) => Some(name),
            None => after_prefix(value, "$"@),
        },
        None => after_prefix(value, "$"@),
    }
}

/// The name of the environment variable that a token refers to, as a shell would.
pub open spec fn referred_name(value: Seq<char>) -> Option<Seq<char>> {
    match referred_part(value) {
        Some(name) => if 0 < name.len() && byte_len(name) <= 128 && forall|i: int|
            0 <= i < name.len() ==> is_alphanumeric(#[trigger] name[i]) || name[i] == '_' {
            Some(name)
        } else {
            None
        },
        None => None,
    }
}

pub fn explicit_environment_name(value: &str) -> (r: Option<String>)
    ensures
        maybe_text(r) == referred_name(value@),
{
    let name = match strip_prefix(value, "${") {
        Some(rest) => match strip_suffix(rest.as_str(), "}") {
            Some(name) => Some(name),
            None => strip_prefix(value, "$"),
        },
        None => strip_prefix(value, "$"),
    };
    let name = match name {
        Some(name) => name,
        None => return None,
    };
    let chars = chars_of(name.as_str());
    if chars.len() == 0 || bytes_in(name.as_str()) > 128 {
        return None;
    }
    let mut i: usize = 0;
    while i < chars.len()
        invariant
            i <= chars.len(),
            chars@ == name@,
            referred_part(value@) == Some(name@),
            forall|j: int| 0 <= j < i ==> is_alphanumeric(#[trigger] name@[j]) || name@[j] == '_',
        decreases chars.len() - i,
    {
        if !alphanumeric(chars[i]) && chars[i] != '_' {
            assert(!(is_alphanumeric(name@[i as int]) || name@[i as int] == '_'));
            return None;
        }
        i += 1;
    }
    Some(name)
}

/// Resolves a token that refers to an environment variable: in the scanned process environment,
/// else in the process itself, whose value is `inherited`.
pub fn resolve_explicit_environment_reference(
    token: String,
    process: &Vec<(String, String)>,
    inherited: Option<String>,
) -> (r: Result<String, AgentFilesystemScanError>)
    ensures
        match referred_name(token@) {
            None => r matches Ok(value) && value@ == token@,
            Some(name) => match process_value(pairs_view(process@), name) {
                Some(found) => r matches Ok(value) && value@ == found,
                None => match inherited {
                    Some(found) => r matches Ok(value) && value@ == found@,
                    None => r matches Err(error) && error
                        == AgentFilesystemScanError::SourceUnavailable,
                },
            },
        },
{
    let name = match explicit_environment_name(token.as_str()) {
        Some(name) => name,
        None => return Ok(token),
    };
    match find_process_value(process, name.as_str()) {
        Some(value) => Ok(value),
        None => match inherited {
            Some(value) => Ok(value),
            None => Err(AgentFilesystemScanError::SourceUnavailable),
        },
    }
}

/// Reads a credential of the process environment, with the revision of the environment. Only the
/// two credential variables can be read.
pub fn read_process_auth_field(
    field: &str,
    process: &Vec<(String, String)>,
    presence: &Vec<String>,
    conflicts: &Vec<String>,
    inherited: Option<String>,
) -> (r: Result<(String, u64), AgentFilesystemScanError>)
    ensures
        if field@ != "ANTHROPIC_AUTH_TOKEN"@ && field@ != "ANTHROPIC_API_KEY"@ {
            r matches Err(error) && error == AgentFilesystemScanError::InvalidDescriptor
        } else {
            let value = match process_value(pairs_view(process@), field@) {
                Some(value) => Some(value),
                None => maybe_text(inherited),
            };
            match value {
                None => r matches Err(error) && error
                    == AgentFilesystemScanError::SourceUnavailable,
                Some(value) => r matches Ok((text, revision)) && text@ == value && revision
                    == revision_of(
                    process_identity(
                        process_settings_of(
                            pairs_view(process@),
                            views_of(presence@),
                            views_of(conflicts@),
                        ),
                    ),
                ),
            }
        },
{
    if !same(field, "ANTHROPIC_AUTH_TOKEN") && !same(field, "ANTHROPIC_API_KEY") {
        return Err(AgentFilesystemScanError::InvalidDescriptor);
    }
    let value = match find_process_value(process, field) {
        Some(value) => value,
        None => match inherited {
            Some(value) => value,
            None => return Err(AgentFilesystemScanError::SourceUnavailable),
        },
    };
    let settings = process_settings(process, presence, conflicts);
    Ok((value, revision_from_digest(&safe_settings_digest(&settings))))
}

} // verus!
