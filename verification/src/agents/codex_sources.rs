//! Model sources that an explicitly selected Codex context names. A native login is never copied.

use vstd::prelude::*;
use crate::agents::codex_layers::CodexEffectiveConfiguration;
use crate::agents::filesystem::AgentFilesystemScanError;
use crate::digest::CanonicalDigest;
use crate::json::{
    array_view, canonical_digest, canonical_digest_of, lemma_array_view, Json, JsonView,
};
use crate::runtime::facts::IngressProtocol;
use crate::text::{chars_of, digit, has_char, identifier, is_digit, is_identifier, same};
use crate::toml::{table_entries, TomlNode};

verus! {

/// How a discovered source authenticates.
#[derive(Clone, Copy, Debug, PartialEq, Eq, Structural)]
pub enum DiscoveredAuthSource {
    Missing,
    Ambiguous,
    NativeSessionNeedsConfirmation,
    HelperNeedsInput,
    EnvironmentKey,
    InlineToken,
}

/// The credential of a source: nothing that could be read, an environment variable, or a token in
/// the configuration.
pub enum SourceAuth {
    Unreadable,
    Environment(String),
    Inline(String),
}

pub enum AuthView {
    Unreadable,
    Environment(Seq<char>),
    Inline(Seq<char>),
}

impl View for SourceAuth {
    type V = AuthView;

    open spec fn view(&self) -> AuthView {
        match self {
            SourceAuth::Unreadable => AuthView::Unreadable,
            SourceAuth::Environment(key) => AuthView::Environment(key@),
            SourceAuth::Inline(token) => AuthView::Inline(token@),
        }
    }
}

/// A source that a context names: what may be shown of it, and what may not.
pub struct CodexSourceDraft {
    pub candidate_ref: String,
    pub context_ref: String,
    pub observed_digest: CanonicalDigest,
    pub authentication: DiscoveredAuthSource,
    pub endpoint: String,
    pub model: Option<String>,
    pub auth: SourceAuth,
}

pub struct DraftView {
    pub candidate_ref: Seq<char>,
    pub context_ref: Seq<char>,
    pub observed_digest: Seq<char>,
    pub authentication: DiscoveredAuthSource,
    pub endpoint: Seq<char>,
    pub model: Option<Seq<char>>,
    pub auth: AuthView,
}

impl View for CodexSourceDraft {
    type V = DraftView;

    open spec fn view(&self) -> DraftView {
        DraftView {
            candidate_ref: self.candidate_ref@,
            context_ref: self.context_ref@,
            observed_digest: self.observed_digest@,
            authentication: self.authentication,
            endpoint: self.endpoint@,
            model: match self.model {
                Some(model) => Some(model@),
                None => None,
            },
            auth: self.auth@,
        }
    }
}

/// Whether a text is the name of an environment variable.
pub open spec fn is_environment_identifier(value: Seq<char>) -> bool {
    is_identifier(value) && !value.contains('-') && !is_digit(value[0])
}

fn environment_identifier(value: &str) -> (r: bool)
    ensures
        r == is_environment_identifier(value@),
{
    if !identifier(value) || has_char(value, '-') {
        return false;
    }
    let chars = chars_of(value);
    !digit(chars[0])
}

/// A string setting: absent, a text, or something else.
pub open spec fn text_at(entries: Map<Seq<char>, TomlNode>, key: Seq<char>) -> Option<
    Option<Seq<char>>,
> {
    if !entries.contains_key(key) {
        Some(None)
    } else {
        match entries[key] {
            TomlNode::Str(text) => Some(Some(text)),
            _ => None,
        }
    }
}

pub open spec fn flag_at(entries: Map<Seq<char>, TomlNode>, key: Seq<char>) -> Option<
    Option<bool>,
> {
    if !entries.contains_key(key) {
        Some(None)
    } else {
        match entries[key] {
            TomlNode::Bool(value) => Some(Some(value)),
            _ => None,
        }
    }
}

pub open spec fn table_at_key(entries: Map<Seq<char>, TomlNode>, key: Seq<char>) -> Option<
    Map<Seq<char>, TomlNode>,
> {
    if entries.contains_key(key) {
        match entries[key] {
            TomlNode::Entries(inner) => Some(inner),
            _ => None,
        }
    } else {
        None
    }
}

/// The settings of the selected provider; none where it has no table.
pub open spec fn provider_entries(entries: Map<Seq<char>, TomlNode>, provider: Seq<char>) -> Map<
    Seq<char>,
    TomlNode,
> {
    match table_at_key(entries, "model_providers"@) {
        Some(providers) => match table_at_key(providers, provider) {
            Some(settings) => settings,
            None => Map::empty(),
        },
        None => Map::empty(),
    }
}

/// How a provider authenticates. More than one mechanism is ambiguous.
pub open spec fn authentication_of(
    inline: Option<Seq<char>>,
    environment: Option<Seq<char>>,
    session: bool,
    helper: bool,
) -> (DiscoveredAuthSource, AuthView) {
    let count = (if inline is Some {
        1int
    } else {
        0
    }) + (if environment is Some {
        1int
    } else {
        0
    }) + (if session {
        1int
    } else {
        0
    }) + (if helper {
        1int
    } else {
        0
    });
    if count > 1 {
        (DiscoveredAuthSource::Ambiguous, AuthView::Unreadable)
    } else if session {
        (DiscoveredAuthSource::NativeSessionNeedsConfirmation, AuthView::Unreadable)
    } else if helper {
        (DiscoveredAuthSource::HelperNeedsInput, AuthView::Unreadable)
    } else if environment is Some {
        (DiscoveredAuthSource::EnvironmentKey, AuthView::Environment(environment->0))
    } else if inline is Some {
        (DiscoveredAuthSource::InlineToken, AuthView::Inline(inline->0))
    } else {
        (DiscoveredAuthSource::Missing, AuthView::Unreadable)
    }
}

pub open spec fn source_identity(
    context: Seq<char>,
    dependency: Seq<char>,
    provider: Seq<char>,
) -> Seq<char> {
    canonical_digest_of(
        JsonView::Array(
            seq![
                JsonView::Str("codex-source-observation/1"@),
                JsonView::Str(context),
                JsonView::Str(dependency),
                JsonView::Str(provider),
            ],
        ),
    )
}

pub open spec fn selected_provider(entries: Map<Seq<char>, TomlNode>) -> Option<Seq<char>> {
    match text_at(entries, "model_provider"@) {
        Some(Some(provider)) => Some(provider),
        Some(None) => Some("openai"@),
        None => None,
    }
}

/// Whether the settings that a source is drafted from are usable.
pub open spec fn provider_is_usable(settings: Map<Seq<char>, TomlNode>) -> bool {
    &&& (text_at(settings, "wire_api"@) matches Some(wire) && (wire matches Some(wire) ==> wire
        == "responses"@))
    &&& text_at(settings, "experimental_bearer_token"@) is Some
    &&& (text_at(settings, "env_key"@) matches Some(key) && (key matches Some(key)
        ==> is_environment_identifier(key)))
    &&& flag_at(settings, "requires_openai_auth"@) is Some
}

/// The source that an effective configuration names. Without any configuration that is the
/// built-in provider with its native login. A provider without an endpoint names none.
pub open spec fn draft_of(
    entries: Map<Seq<char>, TomlNode>,
    context: Seq<char>,
    dependency: Seq<char>,
) -> Result<Option<DraftView>, AgentFilesystemScanError> {
    match (selected_provider(entries), text_at(entries, "model"@)) {
        (Some(provider), Some(model)) => {
            let settings = provider_entries(entries, provider);
            match text_at(settings, "base_url"@) {
                None => Err(AgentFilesystemScanError::InvalidConfig),
                Some(base_url) => if base_url is None && provider != "openai"@ {
                    Ok(None)
                } else if !provider_is_usable(settings) {
                    Err(AgentFilesystemScanError::InvalidConfig)
                } else {
                    let session = provider == "openai"@ || flag_at(
                        settings,
                        "requires_openai_auth"@,
                    )->0 == Some(true);
                    let (authentication, auth) = authentication_of(
                        text_at(settings, "experimental_bearer_token"@)->0,
                        text_at(settings, "env_key"@)->0,
                        session,
                        settings.contains_key("auth"@),
                    );
                    Ok(
                        Some(
                            DraftView {
                                candidate_ref: "source/codex/"@ + context,
                                context_ref: "agent-context/"@ + context,
                                observed_digest: source_identity(context, dependency, provider),
                                authentication,
                                endpoint: match base_url {
                                    Some(url) => url,
                                    None => "https://api.openai.com/v1"@,
                                },
                                model,
                                auth,
                            },
                        ),
                    )
                },
            }
        },
        _ => Err(AgentFilesystemScanError::InvalidConfig),
    }
}

fn text_setting(table: &toml_edit::Table, key: &str) -> (r: Option<Option<String>>)
    ensures
        match text_at(table_entries(*table), key@) {
            Some(Some(text)) => r matches Some(Some(value)) && value@ == text,
            Some(None) => r matches Some(None),
            None => r is None,
        },
{
    match table.get(key) {
        None => Some(None),
        Some(item) => match item.as_str() {
            Some(text) => Some(Some(text.to_owned())),
            None => None,
        },
    }
}

fn flag_setting(table: &toml_edit::Table, key: &str) -> (r: Option<Option<bool>>)
    ensures
        r == flag_at(table_entries(*table), key@),
{
    match table.get(key) {
        None => Some(None),
        Some(item) => match item.as_bool() {
            Some(value) => Some(Some(value)),
            None => None,
        },
    }
}

fn table_setting<'a>(table: &'a toml_edit::Table, key: &str) -> (r: Option<&'a toml_edit::Table>)
    ensures
        match table_at_key(table_entries(*table), key@) {
            Some(inner) => r matches Some(found) && table_entries(*found) == inner,
            None => r is None,
        },
{
    match table.get(key) {
        Some(item) => item.as_table(),
        None => None,
    }
}

fn source_digest(context: &str, dependency: &str, provider: &str) -> (r: CanonicalDigest)
    ensures
        r@ == source_identity(context@, dependency@, provider@),
{
    let mut parts: Vec<Json> = Vec::new();
    parts.push(Json::Str("codex-source-observation/1".to_owned()));
    parts.push(Json::Str(context.to_owned()));
    parts.push(Json::Str(dependency.to_owned()));
    parts.push(Json::Str(provider.to_owned()));
    proof {
        lemma_array_view(parts@);
        assert(array_view(parts@) =~= seq![
            JsonView::Str("codex-source-observation/1"@),
            JsonView::Str(context@),
            JsonView::Str(dependency@),
            JsonView::Str(provider@),
        ]);
    }
    canonical_digest(&Json::Array(parts))
}

fn joined_text(prefix: &str, text: &str) -> (r: String)
    ensures
        r@ == prefix@ + text@,
{
    let mut out = prefix.to_owned();
    out.append(text);
    out
}

fn choose_auth(
    inline: Option<String>,
    environment: Option<String>,
    session: bool,
    helper: bool,
) -> (r: (DiscoveredAuthSource, SourceAuth))
    ensures
        (r.0, r.1@) == authentication_of(
            match inline {
                Some(token) => Some(token@),
                None => None,
            },
            match environment {
                Some(key) => Some(key@),
                None => None,
            },
            session,
            helper,
        ),
{
    let several = (inline.is_some() && (environment.is_some() || session || helper)) || (
    environment.is_some() && (session || helper)) || (session && helper);
    if several {
        return (DiscoveredAuthSource::Ambiguous, SourceAuth::Unreadable);
    }
    if session {
        return (DiscoveredAuthSource::NativeSessionNeedsConfirmation, SourceAuth::Unreadable);
    }
    if helper {
        return (DiscoveredAuthSource::HelperNeedsInput, SourceAuth::Unreadable);
    }
    match environment {
        Some(key) => (DiscoveredAuthSource::EnvironmentKey, SourceAuth::Environment(key)),
        None => match inline {
            Some(token) => (DiscoveredAuthSource::InlineToken, SourceAuth::Inline(token)),
            None => (DiscoveredAuthSource::Missing, SourceAuth::Unreadable),
        },
    }
}

/// Drafts the source that a sampled context names.
pub fn codex_source_draft(sampled: &CodexEffectiveConfiguration) -> (r: Result<
    Option<CodexSourceDraft>,
    AgentFilesystemScanError,
>)
    ensures
        match draft_of(sampled@.entries, sampled@.context_digest, sampled@.dependency_digest) {
            Ok(Some(view)) => r matches Ok(Some(draft)) && draft@ == view,
            Ok(None) => r matches Ok(None),
            Err(failure) => r matches Err(error) && error == failure,
        },
{
    let document = sampled.source_document.as_table();
    let provider_id = match text_setting(document, "model_provider") {
        Some(Some(provider)) => provider,
        Some(None) => "openai".to_owned(),
        None => return Err(AgentFilesystemScanError::InvalidConfig),
    };
    let model = match text_setting(document, "model") {
        Some(model) => model,
        None => return Err(AgentFilesystemScanError::InvalidConfig),
    };
    let none = toml_edit::Table::new();
    assert(table_entries(none) =~= Map::<Seq<char>, TomlNode>::empty());
    let settings = match table_setting(document, "model_providers") {
        Some(providers) => match table_setting(providers, provider_id.as_str()) {
            Some(settings) => settings,
            None => &none,
        },
        None => &none,
    };
    let is_openai = same(provider_id.as_str(), "openai");
    let endpoint = match text_setting(settings, "base_url") {
        None => return Err(AgentFilesystemScanError::InvalidConfig),
        Some(Some(url)) => url,
        Some(None) => {
            if !is_openai {
                return Ok(None);
            }
            "https://api.openai.com/v1".to_owned()
        },
    };
    match text_setting(settings, "wire_api") {
        None => return Err(AgentFilesystemScanError::InvalidConfig),
        Some(Some(wire)) => if !same(wire.as_str(), "responses") {
            return Err(AgentFilesystemScanError::InvalidConfig);
        },
        Some(None) => {},
    }
    let inline = match text_setting(settings, "experimental_bearer_token") {
        Some(inline) => inline,
        None => return Err(AgentFilesystemScanError::InvalidConfig),
    };
    let environment = match text_setting(settings, "env_key") {
        Some(environment) => environment,
        None => return Err(AgentFilesystemScanError::InvalidConfig),
    };
    match &environment {
        Some(key) => if !environment_identifier(key.as_str()) {
            return Err(AgentFilesystemScanError::InvalidConfig);
        },
        None => {},
    }
    let native_auth = match flag_setting(settings, "requires_openai_auth") {
        Some(native_auth) => native_auth,
        None => return Err(AgentFilesystemScanError::InvalidConfig),
    };
    let session = is_openai || match native_auth {
        Some(value) => value,
        None => false,
    };
    let helper = settings.contains_key("auth");
    let (authentication, auth) = choose_auth(inline, environment, session, helper);
    let context = sampled.context_digest.as_str();
    Ok(
        Some(
            CodexSourceDraft {
                candidate_ref: joined_text("source/codex/", context),
                context_ref: joined_text("agent-context/", context),
                observed_digest: source_digest(
                    context,
                    sampled.dependency_digest.as_str(),
                    provider_id.as_str(),
                ),
                authentication,
                endpoint,
                model,
                auth,
            },
        ),
    )
}

/// What may be shown of a source. `endpoint_origin` is the origin of its endpoint, and
/// `native_ingress` the protocol that the agent speaks to it.
#[derive(Debug)]
pub struct AgentSourceCandidate {
    pub candidate_ref: String,
    pub context_ref: String,
    pub observed_digest: CanonicalDigest,
    pub endpoint_origin: Option<String>,
    pub native_ingress: IngressProtocol,
    pub authentication: DiscoveredAuthSource,
}

pub struct CandidateView {
    pub candidate_ref: Seq<char>,
    pub context_ref: Seq<char>,
    pub observed_digest: Seq<char>,
    pub endpoint_origin: Option<Seq<char>>,
    pub native_ingress: IngressProtocol,
    pub authentication: DiscoveredAuthSource,
}

pub open spec fn origin_view(origin: Option<String>) -> Option<Seq<char>> {
    match origin {
        Some(origin) => Some(origin@),
        None => None,
    }
}

impl View for AgentSourceCandidate {
    type V = CandidateView;

    open spec fn view(&self) -> CandidateView {
        CandidateView {
            candidate_ref: self.candidate_ref@,
            context_ref: self.context_ref@,
            observed_digest: self.observed_digest@,
            endpoint_origin: origin_view(self.endpoint_origin),
            native_ingress: self.native_ingress,
            authentication: self.authentication,
        }
    }
}

/// What is shown of a draft. Codex speaks the Responses protocol.
pub open spec fn shown(draft: DraftView, origin: Option<Seq<char>>) -> CandidateView {
    CandidateView {
        candidate_ref: draft.candidate_ref,
        context_ref: draft.context_ref,
        observed_digest: draft.observed_digest,
        endpoint_origin: origin,
        native_ingress: IngressProtocol::Responses,
        authentication: draft.authentication,
    }
}

impl CodexSourceDraft {
    pub fn candidate(&self, endpoint_origin: Option<String>) -> (r: AgentSourceCandidate)
        ensures
            r@ == shown(self@, origin_view(endpoint_origin)),
    {
        AgentSourceCandidate {
            candidate_ref: self.candidate_ref.clone(),
            context_ref: self.context_ref.clone(),
            observed_digest: self.observed_digest.copied(),
            endpoint_origin,
            native_ingress: IngressProtocol::Responses,
            authentication: self.authentication,
        }
    }
}

impl AgentSourceCandidate {
    pub fn equals(&self, other: &Self) -> (r: bool)
        ensures
            r == (self@ == other@),
    {
        let origins = match (&self.endpoint_origin, &other.endpoint_origin) {
            (Some(a), Some(b)) => same(a.as_str(), b.as_str()),
            (None, None) => true,
            _ => false,
        };
        origins && same(self.candidate_ref.as_str(), other.candidate_ref.as_str()) && same(
            self.context_ref.as_str(),
            other.context_ref.as_str(),
        ) && self.observed_digest.equals(&other.observed_digest) && self.native_ingress
            == other.native_ingress && self.authentication == other.authentication
    }
}

/// A selected source with its credential.
pub struct ProtectedAgentSource {
    pub endpoint: String,
    pub model: Option<String>,
    pub credential: Option<String>,
}

pub open spec fn text_option(text: Option<String>) -> Option<Seq<char>> {
    match text {
        Some(text) => Some(text@),
        None => None,
    }
}

/// Reads a selected source. It must be the selected one before and after its credential is read;
/// `first` and `again` are the drafts with what is shown of them, `environment` is the value of
/// the variable that the draft names, and `accepted` says whether a credential can be protected.
pub fn read_selected_codex_source(
    first: Option<(CodexSourceDraft, AgentSourceCandidate)>,
    selected: &AgentSourceCandidate,
    environment: Option<String>,
    accepted: bool,
    again: &Result<Option<AgentSourceCandidate>, AgentFilesystemScanError>,
) -> (r: Result<ProtectedAgentSource, AgentFilesystemScanError>)
    ensures
        match first {
            None => r matches Err(error) && error == AgentFilesystemScanError::SourceChanged,
            Some((draft, candidate)) => {
                let credential = match draft@.auth {
                    AuthView::Unreadable => None,
                    AuthView::Environment(_) => text_option(environment),
                    AuthView::Inline(token) => Some(token),
                };
                if candidate@ != selected@ {
                    r matches Err(error) && error == AgentFilesystemScanError::SourceChanged
                } else if !(draft@.auth is Unreadable) && (credential is None || !accepted) {
                    r matches Err(error) && error == AgentFilesystemScanError::SourceUnavailable
                } else {
                    match *again {
                        Err(failure) => r matches Err(error) && error == failure,
                        Ok(again) => if again matches Some(again) && again@ == selected@ {
                            r matches Ok(source) && source.endpoint@ == draft@.endpoint
                                && text_option(source.model) == draft@.model && text_option(
                                source.credential,
                            ) == credential
                        } else {
                            r matches Err(error) && error
                                == AgentFilesystemScanError::SourceChanged
                        },
                    }
                }
            },
        },
{
    let (draft, candidate) = match first {
        Some(pair) => pair,
        None => return Err(AgentFilesystemScanError::SourceChanged),
    };
    if !candidate.equals(selected) {
        return Err(AgentFilesystemScanError::SourceChanged);
    }
    let CodexSourceDraft { endpoint, model, auth, .. } = draft;
    let credential = match auth {
        SourceAuth::Unreadable => None,
        SourceAuth::Environment(_) => {
            if environment.is_none() || !accepted {
                return Err(AgentFilesystemScanError::SourceUnavailable);
            }
            environment
        },
        SourceAuth::Inline(token) => {
            if !accepted {
                return Err(AgentFilesystemScanError::SourceUnavailable);
            }
            Some(token)
        },
    };
    match again {
        Err(error) => Err(*error),
        Ok(Some(again)) => if again.equals(selected) {
            Ok(ProtectedAgentSource { endpoint, model, credential })
        } else {
            Err(AgentFilesystemScanError::SourceChanged)
        },
        Ok(None) => Err(AgentFilesystemScanError::SourceChanged),
    }
}

} // verus!
