//! What a launch of the gateway is started from, and what an oracle run answers.

use vstd::prelude::*;
use crate::digest::is_digest_text;
use crate::json::{canonical_digest_of, array_view, Json, JsonView};
use crate::paths::is_absolute;
use crate::server::{
    check_listener, contains_forbidden_case_key, has_case_key, oracle_reply, payload_json,
    GatewayLaunchIdentity, GatewayLauncherError, LaunchFixtureEnvelope, OracleReply,
    PublicationSnapshot,
};
use crate::text::{after_prefix, byte_len};

verus! {

/// A listener of an oracle run is on this host, at a port of its own.
pub proof fn listeners_are_reserved(
    address: &str,
    is_loopback: bool,
    port: u16,
    r: Result<(), GatewayLauncherError>,
)
    requires
        call_ensures(check_listener, (address, is_loopback, port), r),
    ensures
        r is Ok <==> is_loopback && port > 0,
        r matches Err(error) ==> (error matches GatewayLauncherError::ListenerMustUseReservedAddress(
            told,
        ) && told@ == address@),
{
}

/// An identity is taken from the environment only as a canonical digest; an environment that says
/// nothing gives none.
pub proof fn identities_are_canonical_digests(
    value: Option<Option<String>>,
    r: Result<GatewayLaunchIdentity, GatewayLauncherError>,
)
    requires
        call_ensures(GatewayLaunchIdentity::from_environment, (value,), r),
    ensures
        r is Ok <==> value is None || (value matches Some(Some(text)) && is_digest_text(text@)),
        r matches Ok(identity) ==> match value {
            None => identity.digest() is None,
            Some(text) => identity.digest() == Some(text->0@),
        },
        r matches Err(error) ==> error is InvalidExecutableDigest,
{
}

/// Readiness is told only to a request with the nonce of the run, in its path and in its header;
/// everything else is not implemented.
pub proof fn only_the_nonce_learns_of_readiness(
    method: &str,
    path: &str,
    header: Option<&str>,
    nonce: &str,
    process_id: u32,
    listen: &str,
    identity: &GatewayLaunchIdentity,
    r: OracleReply,
)
    requires
        call_ensures(
            oracle_reply,
            (method, path, header, nonce, process_id, listen, identity),
            r,
        ),
    ensures
        r.is_ready <==> method@ == "GET"@ && path@ == "/_hiroute/oracle-ready/"@ + nonce@ && (
        header matches Some(told) && told@ == nonce@),
        r.is_ready ==> r.status == 200,
        !r.is_ready ==> r.status == 501,
{
}

/// Nothing that a gateway under test sees names a test case, at any depth: a value names one exactly
/// where an object has such a member, or something in it does.
pub proof fn cases_are_found_at_any_depth(json: &Json, r: bool, name: Seq<char>, at: int)
    requires
        call_ensures(contains_forbidden_case_key, (json,), r),
    ensures
        (json@ matches JsonView::Object(members) && members.contains_key(name) && (name == "case"@
            || name == "case_id"@ || name == "cases"@ || has_case_key(members[name]))) ==> r,
        (json@ matches JsonView::Array(items) && 0 <= at < items.len() && has_case_key(items[at]))
            ==> r,
        !(json@ is Object) && !(json@ is Array) ==> !r,
        r && json@ is Object ==> exists|own: Seq<char>| #[trigger]
            json@->Object_0.contains_key(own) && (own == "case"@ || own == "case_id"@ || own
                == "cases"@ || has_case_key(json@->Object_0[own])),
        r && json@ is Array ==> exists|i: int|
            0 <= i < json@->Array_0.len() && has_case_key(#[trigger] json@->Array_0[i]),
{
}

proof fn lemma_names()
    ensures
        "schema_version"@ != "authority"@,
        "schema_version"@ != "epoch"@,
        "schema_version"@ != "revision"@,
        "schema_version"@ != "protocol_routes"@,
        "schema_version"@ != "alias_index"@,
        "schema_version"@ != "grant_index"@,
        "schema_version"@ != "agent_plans"@,
        "schema_version"@ != "adapter_catalog"@,
        "schema_version"@ != "model_catalog"@,
        "schema_version"@ != "issuer"@,
        "schema_version"@ != "subject"@,
        "schema_version"@ != "policy_revision"@,
        "authority"@ != "epoch"@,
        "authority"@ != "revision"@,
        "authority"@ != "protocol_routes"@,
        "authority"@ != "alias_index"@,
        "authority"@ != "grant_index"@,
        "authority"@ != "agent_plans"@,
        "authority"@ != "adapter_catalog"@,
        "authority"@ != "model_catalog"@,
        "authority"@ != "issuer"@,
        "authority"@ != "subject"@,
        "authority"@ != "policy_revision"@,
        "epoch"@ != "revision"@,
        "epoch"@ != "protocol_routes"@,
        "epoch"@ != "alias_index"@,
        "epoch"@ != "grant_index"@,
        "epoch"@ != "agent_plans"@,
        "epoch"@ != "adapter_catalog"@,
        "epoch"@ != "model_catalog"@,
        "epoch"@ != "issuer"@,
        "epoch"@ != "subject"@,
        "epoch"@ != "policy_revision"@,
        "revision"@ != "protocol_routes"@,
        "revision"@ != "alias_index"@,
        "revision"@ != "grant_index"@,
        "revision"@ != "agent_plans"@,
        "revision"@ != "adapter_catalog"@,
        "revision"@ != "model_catalog"@,
        "revision"@ != "issuer"@,
        "revision"@ != "subject"@,
        "revision"@ != "policy_revision"@,
        "protocol_routes"@ != "alias_index"@,
        "protocol_routes"@ != "grant_index"@,
        "protocol_routes"@ != "agent_plans"@,
        "protocol_routes"@ != "adapter_catalog"@,
        "protocol_routes"@ != "model_catalog"@,
        "protocol_routes"@ != "issuer"@,
        "protocol_routes"@ != "subject"@,
        "protocol_routes"@ != "policy_revision"@,
        "alias_index"@ != "grant_index"@,
        "alias_index"@ != "agent_plans"@,
        "alias_index"@ != "adapter_catalog"@,
        "alias_index"@ != "model_catalog"@,
        "alias_index"@ != "issuer"@,
        "alias_index"@ != "subject"@,
        "alias_index"@ != "policy_revision"@,
        "grant_index"@ != "agent_plans"@,
        "grant_index"@ != "adapter_catalog"@,
        "grant_index"@ != "model_catalog"@,
        "grant_index"@ != "issuer"@,
        "grant_index"@ != "subject"@,
        "grant_index"@ != "policy_revision"@,
        "agent_plans"@ != "adapter_catalog"@,
        "agent_plans"@ != "model_catalog"@,
        "agent_plans"@ != "issuer"@,
        "agent_plans"@ != "subject"@,
        "agent_plans"@ != "policy_revision"@,
        "adapter_catalog"@ != "model_catalog"@,
        "adapter_catalog"@ != "issuer"@,
        "adapter_catalog"@ != "subject"@,
        "adapter_catalog"@ != "policy_revision"@,
        "model_catalog"@ != "issuer"@,
        "model_catalog"@ != "subject"@,
        "model_catalog"@ != "policy_revision"@,
        "issuer"@ != "subject"@,
        "issuer"@ != "policy_revision"@,
        "subject"@ != "policy_revision"@,
{
    reveal_strlit("schema_version");
    reveal_strlit("authority");
    reveal_strlit("epoch");
    reveal_strlit("revision");
    reveal_strlit("protocol_routes");
    reveal_strlit("alias_index");
    reveal_strlit("grant_index");
    reveal_strlit("agent_plans");
    reveal_strlit("adapter_catalog");
    reveal_strlit("model_catalog");
    reveal_strlit("issuer");
    reveal_strlit("subject");
    reveal_strlit("policy_revision");
    assert("schema_version"@.len() == 14);
    assert("authority"@.len() == 9);
    assert("epoch"@.len() == 5);
    assert("revision"@.len() == 8);
    assert("protocol_routes"@.len() == 15);
    assert("alias_index"@.len() == 11);
    assert("grant_index"@.len() == 11);
    assert("agent_plans"@.len() == 11);
    assert("adapter_catalog"@.len() == 15);
    assert("model_catalog"@.len() == 13);
    assert("issuer"@.len() == 6);
    assert("subject"@.len() == 7);
    assert("policy_revision"@.len() == 15);
    assert("protocol_routes"@[0] != "adapter_catalog"@[0]);
    assert("protocol_routes"@[1] != "policy_revision"@[1]);
    assert("alias_index"@[0] != "grant_index"@[0]);
    assert("alias_index"@[1] != "agent_plans"@[1]);
    assert("grant_index"@[0] != "agent_plans"@[0]);
    assert("adapter_catalog"@[0] != "policy_revision"@[0]);
}

/// The digest of a publication covers all of it but the digest itself: two publications with the
/// same payload are the same in every part.
pub proof fn payloads_cover_the_publication(
    publication: PublicationSnapshot,
    other: PublicationSnapshot,
)
    requires
        payload_json(publication) == payload_json(other),
    ensures
        publication.schema_version@ == other.schema_version@,
        publication.issuer@ == other.issuer@,
        publication.subject@ == other.subject@,
        publication.policy_revision@ == other.policy_revision@,
        publication.epoch == other.epoch,
        publication.revision@ == other.revision@,
        array_view(publication.protocol_routes@) == array_view(other.protocol_routes@),
        array_view(publication.alias_index@) == array_view(other.alias_index@),
        array_view(publication.grant_index@) == array_view(other.grant_index@),
        array_view(publication.agent_plans@) == array_view(other.agent_plans@),
        array_view(publication.adapter_catalog@) == array_view(other.adapter_catalog@),
        publication.model_catalog@ == other.model_catalog@,
{
    lemma_names();
    lemma_payload(publication);
    lemma_payload(other);
}

proof fn lemma_payload(publication: PublicationSnapshot)
    ensures
        ({
            let members = payload_json(publication)->Object_0;
            let authority = members["authority"@]->Object_0;
            &&& members["schema_version"@] == JsonView::Str(publication.schema_version@)
            &&& authority["issuer"@] == JsonView::Str(publication.issuer@)
            &&& authority["subject"@] == JsonView::Str(publication.subject@)
            &&& authority["policy_revision"@] == JsonView::Str(publication.policy_revision@)
            &&& members["epoch"@] == JsonView::Int(publication.epoch as int)
            &&& members["revision"@] == JsonView::Str(publication.revision@)
            &&& members["protocol_routes"@] == JsonView::Array(
                array_view(publication.protocol_routes@),
            )
            &&& members["alias_index"@] == JsonView::Array(array_view(publication.alias_index@))
            &&& members["grant_index"@] == JsonView::Array(array_view(publication.grant_index@))
            &&& members["agent_plans"@] == JsonView::Array(array_view(publication.agent_plans@))
            &&& members["adapter_catalog"@] == JsonView::Array(
                array_view(publication.adapter_catalog@),
            )
            &&& members["model_catalog"@] == publication.model_catalog@
        }),
{
    lemma_names();
}

/// A fixture is accepted only where it is complete: of the known schemas, with an authority, an
/// epoch, every index, bindings, grants and credentials, long nonces and absolute places, each
/// binding on this host with a stored credential and a known protocol; where its publication has
/// the digest that it claims; and where nothing in it names a test case.
pub proof fn accepted_fixtures_are_complete(
    fixture: &LaunchFixtureEnvelope,
    r: Result<(), GatewayLauncherError>,
    at: int,
)
    requires
        call_ensures(LaunchFixtureEnvelope::validate, (fixture,), r),
        r is Ok,
    ensures
        fixture.schema_version@ == "hiroute.gateway.e2e-fixture/v2"@,
        fixture.oracle_version@ == "p0-gateway-oracle-v1"@,
        fixture.publication.schema_version@ == "hiroute.gateway.publication-snapshot/v1"@,
        is_digest_text(fixture.contract_digest@),
        fixture.publication.issuer@.len() > 0 && fixture.publication.subject@.len() > 0
            && fixture.publication.policy_revision@.len() > 0 && fixture.publication.revision@.len()
            > 0 && fixture.publication.epoch > 0,
        fixture.publication.protocol_routes@.len() > 0 && fixture.publication.alias_index@.len() > 0
            && fixture.publication.grant_index@.len() > 0 && fixture.publication.agent_plans@.len()
            > 0 && fixture.publication.adapter_catalog@.len() > 0,
        fixture.provider_bindings@.len() > 0 && fixture.client_grants@.len() > 0
            && fixture.credentials@.len() > 0,
        byte_len(fixture.observation_run_nonce@) >= 32 && byte_len(fixture.readiness_nonce@) >= 32,
        is_absolute(fixture.observation_directory@) && is_absolute(
            fixture.observation_terminal_receipt@,
        ) && is_absolute(fixture.readiness_path@),
        0 <= at < fixture.provider_bindings@.len() ==> {
            let binding = fixture.provider_bindings@[at];
            &&& binding.binding_ref@.len() > 0
            &&& after_prefix(binding.endpoint@, "http://127.0.0.1:"@) is Some
            &&& binding.protocol@ == "responses"@ || binding.protocol@ == "chat_completions"@
                || binding.protocol@ == "messages"@
            &&& exists|k: int|
                0 <= k < fixture.credentials@.len() && (#[trigger] fixture.credentials@[k]).0@
                    == binding.credential_ref@
        },
        canonical_digest_of(payload_json(fixture.publication))
            == fixture.publication.payload_digest@,
        !has_case_key(payload_json(fixture.publication)),
{
    if 0 <= at < fixture.provider_bindings@.len() {
        assert(crate::server::is_binding(fixture.provider_bindings@[at], fixture.credentials@));
    }
}

/// A fixture whose publication was changed after its digest was made, or names a test case, is
/// refused.
pub proof fn changed_publications_are_refused(
    fixture: &LaunchFixtureEnvelope,
    r: Result<(), GatewayLauncherError>,
)
    requires
        call_ensures(LaunchFixtureEnvelope::validate, (fixture,), r),
        canonical_digest_of(payload_json(fixture.publication))
            != fixture.publication.payload_digest@ || has_case_key(
            payload_json(fixture.publication),
        ),
    ensures
        r is Err,
{
}

} // verus!
