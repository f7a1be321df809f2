//! Starting the gateway: the identity of its executable, the fixture that an oracle run starts
//! from, and the one answer that such a run gives.

use vstd::prelude::*;
use crate::digest::{is_digest, is_digest_text};
use crate::json::{
    array_view, canonical_digest, canonical_digest_of, compact_json, find_member, json_view,
    lemma_array_view, lemma_object_names, object_view, put_member, to_bytes, Json, JsonView,
};
use crate::paths::{absolute, is_absolute};
use crate::text::{after_prefix, byte_len, bytes_in, decimal, decimal_text, same, starts_with};

verus! {

pub const LAUNCH_FIXTURE_SCHEMA: &'static str = "hiroute.gateway.e2e-fixture/v2";

pub const PUBLICATION_SCHEMA: &'static str = "hiroute.gateway.publication-snapshot/v1";

pub const READY_SCHEMA: &'static str = "hiroute.gateway.ready/v1";

pub const NOT_IMPLEMENTED_CODE: &'static str = "GATEWAY_EXECUTION_NOT_IMPLEMENTED";

pub const LAUNCHER_EXECUTABLE_SHA256_ENV: &'static str = "HIROUTE_LAUNCHER_EXECUTABLE_SHA256";

pub const NOT_IMPLEMENTED_BODY: &'static str = "{\"schema_version\":\"hiroute.gateway.error/v1\",\"code\":\"GATEWAY_EXECUTION_NOT_IMPLEMENTED\",\"phase\":\"oracle_frozen_before_product\"}";

/// Why the gateway did not start. What another part of the host says of its failure is carried as
/// its text.
#[derive(Debug)]
pub enum GatewayLauncherError {
    UnsupportedRole(String),
    ListenerMustUseReservedAddress(String),
    Publication(String),
    ProductionPublicationIo(String),
    ProductionPublicationJson(String),
    RuntimeAuthority(String),
    ContinuationKeyUnavailable,
    TestControl(String),
    FixtureIo(String),
    FixtureJson(String),
    FixtureEnvelope,
    PublicationDigest,
    Listener(String),
    ReadinessIo(String),
    InvalidExecutableDigest,
}

impl GatewayLauncherError {
    pub open spec fn message_text(self) -> Seq<char> {
        match self {
            GatewayLauncherError::UnsupportedRole(role) => {
                "hirouted supports only --role gateway, not "@ + role@
            },
            GatewayLauncherError::ListenerMustUseReservedAddress(address) => {
                "gateway listener must use a reserved nonzero IPv4 address, got "@ + address@
            },
            GatewayLauncherError::Publication(detail) => detail@,
            GatewayLauncherError::ProductionPublicationIo(detail) => {
                "cannot read production gateway publication: "@ + detail@
            },
            GatewayLauncherError::ProductionPublicationJson(detail) => {
                "production gateway publication is invalid JSON: "@ + detail@
            },
            GatewayLauncherError::RuntimeAuthority(detail) => {
                "production runtime authority configuration is invalid: "@ + detail@
            },
            GatewayLauncherError::ContinuationKeyUnavailable => {
                "Tool continuation process authority key is unavailable"@
            },
            GatewayLauncherError::TestControl(detail) => detail@,
            GatewayLauncherError::FixtureIo(detail) => {
                "cannot read gateway launch fixture: "@ + detail@
            },
            GatewayLauncherError::FixtureJson(detail) => {
                "gateway launch fixture is invalid JSON: "@ + detail@
            },
            GatewayLauncherError::FixtureEnvelope => {
                "gateway launch fixture envelope is incomplete"@
            },
            GatewayLauncherError::PublicationDigest => {
                "gateway publication digest or SUT-visible case isolation failed"@
            },
            GatewayLauncherError::Listener(detail) => "gateway listener failed: "@ + detail@,
            GatewayLauncherError::ReadinessIo(detail) => {
                "gateway readiness handshake failed: "@ + detail@
            },
            GatewayLauncherError::InvalidExecutableDigest => {
                LAUNCHER_EXECUTABLE_SHA256_ENV@
                    + " must be a lowercase sha256:<64 hex characters> digest"@
            },
        }
    }

    pub fn message(&self) -> (r: String)
        ensures
            r@ == self.message_text(),
    {
        match self {
            GatewayLauncherError::UnsupportedRole(role) => prefixed(
                "hirouted supports only --role gateway, not ",
                role.as_str(),
            ),
            GatewayLauncherError::ListenerMustUseReservedAddress(address) => prefixed(
                "gateway listener must use a reserved nonzero IPv4 address, got ",
                address.as_str(),
            ),
            GatewayLauncherError::Publication(detail) => detail.clone(),
            GatewayLauncherError::ProductionPublicationIo(detail) => prefixed(
                "cannot read production gateway publication: ",
                detail.as_str(),
            ),
            GatewayLauncherError::ProductionPublicationJson(detail) => prefixed(
                "production gateway publication is invalid JSON: ",
                detail.as_str(),
            ),
            GatewayLauncherError::RuntimeAuthority(detail) => prefixed(
                "production runtime authority configuration is invalid: ",
                detail.as_str(),
            ),
            GatewayLauncherError::ContinuationKeyUnavailable => {
                "Tool continuation process authority key is unavailable".to_owned()
            },
            GatewayLauncherError::TestControl(detail) => detail.clone(),
            GatewayLauncherError::FixtureIo(detail) => prefixed(
                "cannot read gateway launch fixture: ",
                detail.as_str(),
            ),
            GatewayLauncherError::FixtureJson(detail) => prefixed(
                "gateway launch fixture is invalid JSON: ",
                detail.as_str(),
            ),
            GatewayLauncherError::FixtureEnvelope => {
                "gateway launch fixture envelope is incomplete".to_owned()
            },
            GatewayLauncherError::PublicationDigest => {
                "gateway publication digest or SUT-visible case isolation failed".to_owned()
            },
            GatewayLauncherError::Listener(detail) => prefixed(
                "gateway listener failed: ",
                detail.as_str(),
            ),
            GatewayLauncherError::ReadinessIo(detail) => prefixed(
                "gateway readiness handshake failed: ",
                detail.as_str(),
            ),
            GatewayLauncherError::InvalidExecutableDigest => prefixed(
                LAUNCHER_EXECUTABLE_SHA256_ENV,
                " must be a lowercase sha256:<64 hex characters> digest",
            ),
        }
    }
}

fn prefixed(prefix: &str, text: &str) -> (r: String)
    ensures
        r@ == prefix@ + text@,
{
    let mut out = prefix.to_owned();
    out.append(text);
    out
}

/// The digest of the executable that was launched, where the launcher told it.
#[derive(Debug)]
pub struct GatewayLaunchIdentity {
    executable_sha256: Option<String>,
}

impl Default for GatewayLaunchIdentity {
    fn default() -> (r: Self)
        ensures
            r.digest() is None,
    {
        GatewayLaunchIdentity { executable_sha256: None }
    }
}

impl GatewayLaunchIdentity {
    pub closed spec fn digest(self) -> Option<Seq<char>> {
        match self.executable_sha256 {
            Some(text) => Some(text@),
            None => None,
        }
    }

    /// A told digest is canonical.
    #[verifier::type_invariant]
    spec fn is_canonical(self) -> bool {
        match self.executable_sha256 {
            Some(text) => is_digest_text(text@),
            None => true,
        }
    }

    pub fn from_executable_sha256(executable_sha256: String) -> (r: Result<
        Self,
        GatewayLauncherError,
    >)
        ensures
            if is_digest_text(executable_sha256@) {
                r matches Ok(identity) && identity.digest() == Some(executable_sha256@)
            } else {
                r matches Err(GatewayLauncherError::InvalidExecutableDigest)
            },
    {
        if !is_digest(executable_sha256.as_str()) {
            return Err(GatewayLauncherError::InvalidExecutableDigest);
        }
        Ok(GatewayLaunchIdentity { executable_sha256: Some(executable_sha256) })
    }

    /// The identity that the environment tells: `value` is the variable, where it is set, as a text,
    /// where it is one.
    pub fn from_environment(value: Option<Option<String>>) -> (r: Result<
        Self,
        GatewayLauncherError,
    >)
        ensures
            match value {
                None => r matches Ok(identity) && identity.digest() is None,
                Some(None) => r matches Err(GatewayLauncherError::InvalidExecutableDigest),
                Some(Some(text)) => if is_digest_text(text@) {
                    r matches Ok(identity) && identity.digest() == Some(text@)
                } else {
                    r matches Err(GatewayLauncherError::InvalidExecutableDigest)
                },
            },
    {
        match value {
            None => Ok(GatewayLaunchIdentity { executable_sha256: None }),
            Some(None) => Err(GatewayLauncherError::InvalidExecutableDigest),
            Some(Some(text)) => GatewayLaunchIdentity::from_executable_sha256(text),
        }
    }

    pub fn executable_sha256(&self) -> (r: Option<&str>)
        ensures
            (match r {
                Some(text) => Some(text@),
                None => None,
            }) == self.digest(),
            r matches Some(text) ==> is_digest_text(text@),
    {
        proof {
            use_type_invariant(self);
        }
        match &self.executable_sha256 {
            Some(text) => Some(text.as_str()),
            None => None,
        }
    }
}

/// The listener of an oracle run must be a reserved address of this host.
pub fn check_listener(address: &str, is_loopback: bool, port: u16) -> (r: Result<
    (),
    GatewayLauncherError,
>)
    ensures
        if is_loopback && port != 0 {
            r is Ok
        } else {
            r matches Err(GatewayLauncherError::ListenerMustUseReservedAddress(told)) && told@
                == address@
        },
{
    if !is_loopback || port == 0 {
        return Err(GatewayLauncherError::ListenerMustUseReservedAddress(address.to_owned()));
    }
    Ok(())
}

/// A publication as a fixture holds it.
#[derive(Debug)]
pub struct PublicationSnapshot {
    pub schema_version: String,
    pub issuer: String,
    pub subject: String,
    pub policy_revision: String,
    pub epoch: u64,
    pub revision: String,
    pub payload_digest: String,
    pub protocol_routes: Vec<Json>,
    pub alias_index: Vec<Json>,
    pub grant_index: Vec<Json>,
    pub agent_plans: Vec<Json>,
    pub adapter_catalog: Vec<Json>,
    pub model_catalog: Json,
}

#[derive(Debug)]
pub struct ProviderBinding {
    pub binding_ref: String,
    pub credential_ref: String,
    pub endpoint: String,
    pub protocol: String,
}

/// What an oracle run starts from.
#[derive(Debug)]
pub struct LaunchFixtureEnvelope {
    pub schema_version: String,
    pub oracle_version: String,
    pub contract_digest: String,
    pub publication: PublicationSnapshot,
    pub provider_bindings: Vec<ProviderBinding>,
    pub client_grants: Vec<(String, String)>,
    pub credentials: Vec<(String, String)>,
    pub observation_directory: String,
    pub observation_run_nonce: String,
    pub observation_terminal_receipt: String,
    pub readiness_nonce: String,
    pub readiness_path: String,
}

/// What a publication's digest is made of: all of it but the digest.
pub open spec fn payload_json(publication: PublicationSnapshot) -> JsonView {
    JsonView::Object(
        map![
            "schema_version"@ => JsonView::Str(publication.schema_version@),
            "authority"@ => JsonView::Object(
                map![
                    "issuer"@ => JsonView::Str(publication.issuer@),
                    "subject"@ => JsonView::Str(publication.subject@),
                    "policy_revision"@ => JsonView::Str(publication.policy_revision@),
                ],
            ),
            "epoch"@ => JsonView::Int(publication.epoch as int),
            "revision"@ => JsonView::Str(publication.revision@),
            "protocol_routes"@ => JsonView::Array(array_view(publication.protocol_routes@)),
            "alias_index"@ => JsonView::Array(array_view(publication.alias_index@)),
            "grant_index"@ => JsonView::Array(array_view(publication.grant_index@)),
            "agent_plans"@ => JsonView::Array(array_view(publication.agent_plans@)),
            "adapter_catalog"@ => JsonView::Array(array_view(publication.adapter_catalog@)),
            "model_catalog"@ => publication.model_catalog@,
        ],
    )
}

fn copied_items(items: &Vec<Json>) -> (r: Json)
    ensures
        r@ == JsonView::Array(array_view(items@)),
{
    let mut out: Vec<Json> = Vec::new();
    let mut i: usize = 0;
    assert(items@.take(0) == Seq::<Json>::empty());
    while i < items.len()
        invariant
            i <= items.len(),
            array_view(out@) == array_view(items@.take(i as int)),
        decreases items.len() - i,
    {
        let ghost before = out@;
        out.push(items[i].copied());
        assert(out@.drop_last() == before);
        assert(items@.take(i + 1).drop_last() == items@.take(i as int));
        i += 1;
    }
    assert(items@.take(i as int) == items@);
    Json::Array(out)
}

fn put_text(members: &mut Vec<(String, Json)>, name: &str, text: &String)
    ensures
        object_view(final(members)@) == object_view(old(members)@).insert(
            name@,
            JsonView::Str(text@),
        ),
{
    put_member(members, name, Json::Str(text.clone()));
}

/// The payload of a publication as a document.
pub fn publication_payload(publication: &PublicationSnapshot) -> (r: Json)
    ensures
        r@ == payload_json(*publication),
{
    let mut authority: Vec<(String, Json)> = Vec::new();
    put_text(&mut authority, "issuer", &publication.issuer);
    put_text(&mut authority, "subject", &publication.subject);
    put_text(&mut authority, "policy_revision", &publication.policy_revision);
    let mut members: Vec<(String, Json)> = Vec::new();
    put_text(&mut members, "schema_version", &publication.schema_version);
    put_member(&mut members, "authority", Json::Object(authority));
    put_member(&mut members, "epoch", Json::Pos(publication.epoch));
    put_text(&mut members, "revision", &publication.revision);
    put_member(&mut members, "protocol_routes", copied_items(&publication.protocol_routes));
    put_member(&mut members, "alias_index", copied_items(&publication.alias_index));
    put_member(&mut members, "grant_index", copied_items(&publication.grant_index));
    put_member(&mut members, "agent_plans", copied_items(&publication.agent_plans));
    put_member(&mut members, "adapter_catalog", copied_items(&publication.adapter_catalog));
    put_member(&mut members, "model_catalog", publication.model_catalog.copied());
    Json::Object(members)
}

pub open spec fn is_case_name(name: Seq<char>) -> bool {
    name == "case"@ || name == "case_id"@ || name == "cases"@
}

/// Whether a value names test cases anywhere.
pub open spec fn has_case_key(json: JsonView) -> bool
    decreases json,
{
    match json {
        JsonView::Array(items) => exists|i: int|
            0 <= i < items.len() && has_case_key(#[trigger] items[i]),
        JsonView::Object(members) => exists|name: Seq<char>| #[trigger]
            members.contains_key(name) && (is_case_name(name) || has_case_key(members[name])),
        _ => false,
    }
}

proof fn lemma_case_in_array(items: Seq<JsonView>, at: int)
    requires
        0 <= at < items.len(),
        has_case_key(items[at]),
    ensures
        has_case_key(JsonView::Array(items)),
{
    let json = JsonView::Array(items);
    assert(json->Array_0[at] == items[at]);
    assert(exists|i: int| 0 <= i < items.len() && has_case_key(#[trigger] items[i]));
    assert(has_case_key(json));
}

proof fn lemma_case_in_object(members: Map<Seq<char>, JsonView>, name: Seq<char>)
    requires
        members.contains_key(name),
        is_case_name(name) || has_case_key(members[name]),
    ensures
        has_case_key(JsonView::Object(members)),
{
    let json = JsonView::Object(members);
    assert(json->Object_0[name] == members[name]);
    assert(exists|n: Seq<char>| #[trigger]
        members.contains_key(n) && (is_case_name(n) || has_case_key(members[n])));
    assert(has_case_key(json));
}

/// Whether a value names test cases anywhere. A gateway under test must not see any.
pub fn contains_forbidden_case_key(json: &Json) -> (r: bool)
    ensures
        r == has_case_key(json@),
    decreases json,
{
    match json {
        Json::Array(items) => {
            let ghost views = array_view(items@);
            proof {
                lemma_array_view(items@);
            }
            let mut i: usize = 0;
            while i < items.len()
                invariant
                    i <= items.len(),
                    *json == Json::Array(*items),
                    views == array_view(items@),
                    views.len() == items@.len(),
                    forall|j: int|
                        0 <= j < items@.len() ==> #[trigger] views[j] == json_view(items@[j]),
                    forall|j: int| 0 <= j < i ==> !has_case_key(#[trigger] views[j]),
                decreases items.len() - i,
            {
                assert(decreases_to!(*json => json->Array_0));
                assert(decreases_to!(*items => items@));
                assert(decreases_to!(items@ => items@[i as int]));
                assert(views[i as int] == json_view(items@[i as int]));
                if contains_forbidden_case_key(&items[i]) {
                    proof {
                        assert(has_case_key(views[i as int]));
                        assert(json@ == JsonView::Array(views));
                        lemma_case_in_array(views, i as int);
                    }
                    return true;
                }
                i += 1;
            }
            false
        },
        Json::Object(members) => {
            let ghost view = object_view(members@);
            let mut i: usize = 0;
            while i < members.len()
                invariant
                    i <= members.len(),
                    *json == Json::Object(*members),
                    view == object_view(members@),
                    forall|j: int|
                        0 <= j < i ==> view.contains_key((#[trigger] members@[j]).0@)
                            && !is_case_name(members@[j].0@) && !has_case_key(
                            view[members@[j].0@],
                        ),
                decreases members.len() - i,
            {
                let name = &members[i].0;
                proof {
                    lemma_object_names(members@, name@);
                    assert(members@[i as int].0@ == name@);
                }
                let value = match find_member(members, name.as_str()) {
                    Some(value) => value,
                    None => return false,
                };
                proof {
                    let k = choose|k: int|
                        0 <= k < members@.len() && #[trigger] members@[k].1 == *value
                            && members@[k].0@ == name@;
                    assert(decreases_to!(*json => json->Object_0));
                    assert(decreases_to!(*members => members@));
                    assert(decreases_to!(members@ => members@[k]));
                    assert(decreases_to!(members@[k] => members@[k].1));
                }
                if same(name.as_str(), "case") || same(name.as_str(), "case_id") || same(
                    name.as_str(),
                    "cases",
                ) || contains_forbidden_case_key(value) {
                    proof {
                        assert(json@ == JsonView::Object(view));
                        lemma_case_in_object(view, name@);
                    }
                    return true;
                }
                i += 1;
            }
            proof {
                assert forall|name: Seq<char>| #[trigger] view.contains_key(name) implies !(
                is_case_name(name) || has_case_key(view[name])) by {
                    lemma_object_names(members@, name);
                    let k = choose|k: int|
                        0 <= k < members@.len() && (#[trigger] members@[k]).0@ == name;
                    assert(!has_case_key(view[members@[k].0@]));
                }
                assert(json@ == JsonView::Object(view));
            }
            false
        },
        _ => false,
    }
}

/// Whether a name is among those of a list of pairs.
pub open spec fn names_pair(pairs: Seq<(String, String)>, name: Seq<char>) -> bool {
    exists|i: int| 0 <= i < pairs.len() && (#[trigger] pairs[i]).0@ == name
}

fn has_pair(pairs: &Vec<(String, String)>, name: &str) -> (r: bool)
    ensures
        r == names_pair(pairs@, name@),
{
    let mut i: usize = 0;
    while i < pairs.len()
        invariant
            i <= pairs.len(),
            forall|j: int| 0 <= j < i ==> (#[trigger] pairs@[j]).0@ != name@,
        decreases pairs.len() - i,
    {
        if same(pairs[i].0.as_str(), name) {
            return true;
        }
        i += 1;
    }
    false
}

/// Whether a binding is one of this host, with a stored credential and a known protocol.
pub open spec fn is_binding(binding: ProviderBinding, credentials: Seq<(String, String)>) -> bool {
    binding.binding_ref@.len() > 0 && names_pair(credentials, binding.credential_ref@)
        && after_prefix(binding.endpoint@, "http://127.0.0.1:"@) is Some && (binding.protocol@
        == "responses"@ || binding.protocol@ == "chat_completions"@ || binding.protocol@
        == "messages"@)
}

pub open spec fn are_bindings(
    bindings: Seq<ProviderBinding>,
    credentials: Seq<(String, String)>,
) -> bool {
    forall|i: int| 0 <= i < bindings.len() ==> is_binding(#[trigger] bindings[i], credentials)
}

/// Whether an envelope is complete.
pub open spec fn is_complete(fixture: LaunchFixtureEnvelope) -> bool {
    let publication = fixture.publication;
    &&& fixture.schema_version@ == LAUNCH_FIXTURE_SCHEMA@
    &&& fixture.oracle_version@ == "p0-gateway-oracle-v1"@
    &&& is_digest_text(fixture.contract_digest@)
    &&& publication.schema_version@ == PUBLICATION_SCHEMA@
    &&& publication.issuer@.len() > 0
    &&& publication.subject@.len() > 0
    &&& publication.policy_revision@.len() > 0
    &&& publication.epoch != 0
    &&& publication.revision@.len() > 0
    &&& publication.protocol_routes@.len() > 0
    &&& publication.alias_index@.len() > 0
    &&& publication.grant_index@.len() > 0
    &&& publication.agent_plans@.len() > 0
    &&& publication.adapter_catalog@.len() > 0
    &&& publication.model_catalog@ is Object
    &&& fixture.provider_bindings@.len() > 0
    &&& fixture.client_grants@.len() > 0
    &&& fixture.credentials@.len() > 0
    &&& byte_len(fixture.observation_run_nonce@) >= 32
    &&& byte_len(fixture.readiness_nonce@) >= 32
    &&& is_absolute(fixture.observation_directory@)
    &&& is_absolute(fixture.observation_terminal_receipt@)
    &&& is_absolute(fixture.readiness_path@)
    &&& are_bindings(fixture.provider_bindings@, fixture.credentials@)
}

fn is_empty(text: &str) -> (r: bool)
    ensures
        r == (text@.len() == 0),
{
    proof {
        reveal_strlit("");
        if text@.len() == 0 {
            assert(text@ =~= ""@);
        }
    }
    same(text, "")
}

fn valid_binding(binding: &ProviderBinding, credentials: &Vec<(String, String)>) -> (r: bool)
    ensures
        r == is_binding(*binding, credentials@),
{
    !is_empty(binding.binding_ref.as_str()) && has_pair(
        credentials,
        binding.credential_ref.as_str(),
    ) && starts_with(binding.endpoint.as_str(), "http://127.0.0.1:") && (same(
        binding.protocol.as_str(),
        "responses",
    ) || same(binding.protocol.as_str(), "chat_completions") || same(
        binding.protocol.as_str(),
        "messages",
    ))
}

fn valid_bindings(bindings: &Vec<ProviderBinding>, credentials: &Vec<(String, String)>) -> (r: bool)
    ensures
        r == are_bindings(bindings@, credentials@),
{
    let mut i: usize = 0;
    while i < bindings.len()
        invariant
            i <= bindings.len(),
            forall|j: int| 0 <= j < i ==> is_binding(#[trigger] bindings@[j], credentials@),
        decreases bindings.len() - i,
    {
        if !valid_binding(&bindings[i], credentials) {
            assert(!is_binding(bindings@[i as int], credentials@));
            return false;
        }
        i += 1;
    }
    true
}

fn is_object(json: &Json) -> (r: bool)
    ensures
        r == (json@ is Object),
{
    match json {
        Json::Object(_) => true,
        _ => false,
    }
}

impl LaunchFixtureEnvelope {
    fn complete(&self) -> (r: bool)
        ensures
            r == is_complete(*self),
    {
        let publication = &self.publication;
        let named = same(self.schema_version.as_str(), LAUNCH_FIXTURE_SCHEMA) && same(
            self.oracle_version.as_str(),
            "p0-gateway-oracle-v1",
        ) && is_digest(self.contract_digest.as_str()) && same(
            publication.schema_version.as_str(),
            PUBLICATION_SCHEMA,
        );
        let told = !is_empty(publication.issuer.as_str()) && !is_empty(
            publication.subject.as_str(),
        ) && !is_empty(publication.policy_revision.as_str()) && publication.epoch != 0 && !is_empty(
            publication.revision.as_str(),
        );
        let filled = publication.protocol_routes.len() > 0 && publication.alias_index.len() > 0
            && publication.grant_index.len() > 0 && publication.agent_plans.len() > 0
            && publication.adapter_catalog.len() > 0 && is_object(&publication.model_catalog)
            && self.provider_bindings.len() > 0 && self.client_grants.len() > 0
            && self.credentials.len() > 0;
        let placed = bytes_in(self.observation_run_nonce.as_str()) >= 32 && bytes_in(
            self.readiness_nonce.as_str(),
        ) >= 32 && absolute(self.observation_directory.as_str()) && absolute(
            self.observation_terminal_receipt.as_str(),
        ) && absolute(self.readiness_path.as_str());
        named && told && filled && placed && valid_bindings(
            &self.provider_bindings,
            &self.credentials,
        )
    }

    /// A fixture must be complete, its publication must have the digest that it claims, and nothing
    /// in the publication may name a test case.
    pub fn validate(&self) -> (r: Result<(), GatewayLauncherError>)
        ensures
            if !is_complete(*self) {
                r matches Err(GatewayLauncherError::FixtureEnvelope)
            } else if canonical_digest_of(payload_json(self.publication))
                != self.publication.payload_digest@ || has_case_key(
                payload_json(self.publication),
            ) {
                r matches Err(GatewayLauncherError::PublicationDigest)
            } else {
                r is Ok
            },
    {
        if !self.complete() {
            return Err(GatewayLauncherError::FixtureEnvelope);
        }
        let payload = publication_payload(&self.publication);
        let digest = canonical_digest(&payload);
        if !same(digest.as_str(), self.publication.payload_digest.as_str())
            || contains_forbidden_case_key(&payload) {
            return Err(GatewayLauncherError::PublicationDigest);
        }
        Ok(())
    }
}

/// A text as a JSON string.
pub open spec fn quoted_json(text: Seq<char>) -> Seq<u8> {
    compact_json(JsonView::Str(text))
}

/// The document that tells that the gateway is ready. Its members stand in this order.
pub open spec fn ready_document_of(
    nonce: Seq<char>,
    process_id: u32,
    listen: Seq<char>,
    digest: Option<Seq<char>>,
) -> Seq<u8> {
    vstd::utf8::encode_utf8("{\"schema_version\":"@) + quoted_json(READY_SCHEMA@)
        + vstd::utf8::encode_utf8(",\"run_nonce\":"@) + quoted_json(nonce)
        + vstd::utf8::encode_utf8(",\"process_id\":"@) + vstd::utf8::encode_utf8(
        decimal_text(process_id as nat),
    ) + vstd::utf8::encode_utf8(",\"listen_address\":"@) + quoted_json(listen)
        + vstd::utf8::encode_utf8(",\"executable_sha256\":"@) + (match digest {
        Some(digest) => quoted_json(digest),
        None => vstd::utf8::encode_utf8("null"@),
    }) + vstd::utf8::encode_utf8("}"@)
}

fn push_text(out: &mut Vec<u8>, text: &str)
    ensures
        final(out)@ == old(out)@ + vstd::utf8::encode_utf8(text@),
{
    out.extend_from_slice(text.as_bytes());
}

fn push_quoted(out: &mut Vec<u8>, text: &str)
    ensures
        final(out)@ == old(out)@ + quoted_json(text@),
{
    out.extend_from_slice(to_bytes(&Json::Str(text.to_owned())).as_slice());
}

pub fn ready_document(nonce: &str, process_id: u32, listen: &str, identity: &GatewayLaunchIdentity) -> (r:
    Vec<u8>)
    ensures
        r@ == ready_document_of(nonce@, process_id, listen@, identity.digest()),
{
    let mut out: Vec<u8> = Vec::new();
    assert(out@ + vstd::utf8::encode_utf8("{\"schema_version\":"@) =~= vstd::utf8::encode_utf8(
        "{\"schema_version\":"@,
    ));
    push_text(&mut out, "{\"schema_version\":");
    push_quoted(&mut out, READY_SCHEMA);
    push_text(&mut out, ",\"run_nonce\":");
    push_quoted(&mut out, nonce);
    push_text(&mut out, ",\"process_id\":");
    push_text(&mut out, decimal(process_id as u64).as_str());
    push_text(&mut out, ",\"listen_address\":");
    push_quoted(&mut out, listen);
    push_text(&mut out, ",\"executable_sha256\":");
    match identity.executable_sha256() {
        Some(digest) => push_quoted(&mut out, digest),
        None => push_text(&mut out, "null"),
    }
    push_text(&mut out, "}");
    out
}

/// The answer of an oracle run: a status, a body, and whether readiness is to be written down.
#[derive(Debug)]
pub struct OracleReply {
    pub status: u16,
    pub body: Vec<u8>,
    pub is_ready: bool,
}

/// Whether a request asks for readiness with the nonce of the run.
pub open spec fn asks_readiness(
    method: Seq<char>,
    path: Seq<char>,
    header: Option<Seq<char>>,
    nonce: Seq<char>,
) -> bool {
    method == "GET"@ && path == "/_hiroute/oracle-ready/"@ + nonce && header == Some(nonce)
}

/// Answers a request of an oracle run. Everything but readiness is not implemented there.
pub fn oracle_reply(
    method: &str,
    path: &str,
    header: Option<&str>,
    nonce: &str,
    process_id: u32,
    listen: &str,
    identity: &GatewayLaunchIdentity,
) -> (r: OracleReply)
    ensures
        ({
            let told = match header {
                Some(header) => Some(header@),
                None => None,
            };
            if asks_readiness(method@, path@, told, nonce@) {
                r.status == 200 && r.is_ready && r.body@ == ready_document_of(
                    nonce@,
                    process_id,
                    listen@,
                    identity.digest(),
                )
            } else {
                r.status == 501 && !r.is_ready && r.body@ == vstd::utf8::encode_utf8(
                    NOT_IMPLEMENTED_BODY@,
                )
            }
        }),
{
    let ready_path = prefixed("/_hiroute/oracle-ready/", nonce);
    let nonce_matches = match header {
        Some(header) => same(header, nonce),
        None => false,
    };
    if same(method, "GET") && same(path, ready_path.as_str()) && nonce_matches {
        return OracleReply {
            status: 200,
            body: ready_document(nonce, process_id, listen, identity),
            is_ready: true,
        };
    }
    let mut body: Vec<u8> = Vec::new();
    push_text(&mut body, NOT_IMPLEMENTED_BODY);
    assert(body@ =~= vstd::utf8::encode_utf8(NOT_IMPLEMENTED_BODY@));
    OracleReply { status: 501, body, is_ready: false }
}

/// A request without the nonce of the run never learns of its readiness.
pub proof fn readiness_needs_the_nonce(
    method: Seq<char>,
    path: Seq<char>,
    header: Option<Seq<char>>,
    nonce: Seq<char>,
    other: Seq<char>,
)
    requires
        asks_readiness(method, path, header, nonce),
        asks_readiness(method, path, header, other),
    ensures
        nonce == other,
{
}

} // verus!
