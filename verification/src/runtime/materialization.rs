//! From a frozen candidate to a prepared upstream request.
//!
//! The lifecycle walks an attempt through the steps of this module in their order and makes the
//! outside calls between them: it parses the sealed execution, asks the runtime state for
//! permits, leases a credential and looks up addresses. Each step decides on what came back.

use vstd::prelude::*;
use crate::digest::{is_digest, is_digest_text};
use crate::text::{
    after_prefix, before_first, blank, decimal, decimal_text, decimal_text_denotes_its_number,
    is_blank, lowercase, lowered, parse_u64, parsed_u64, same, starts_with, strip_prefix,
    strip_suffix, before_suffix, take_before,
};
use crate::uri::{parse_authority, parse_uri, read_authority, read_uri, AuthorityParts, AuthorityView,
    UriParts, UriView};
use super::body::{BodyQueue, PrecommitDecoderBudget};
use super::facts::{
    text_view, AttemptFailure, AttemptTimeoutPhase, FactsView, IngressProtocol,
    ProviderClassificationFacts, RetryabilityFact, unknown_facts,
};
use super::profile::{
    connector_error_profile, AuthenticationSemantics, CandidateProtocolProfile,
    ConnectorErrorProfile, ConnectorHeaders,
};
use super::response::{AttemptView, ProductionAttemptState, RawAttemptFailure};
use super::selection::{
    result_view, CoreAttemptFailureClass, DecisionCandidateAuthority, ProductionRouteContext,
    ResolvedTargetBindingId,
};
use super::state::{
    failure_write, record_failure_at, AttemptStatePermits, PermitAvailability,
    RuntimeCooldownPolicy, RuntimeStateKey, StateKeyView, StatePermit, StateWrite,
};

verus! {

/// The request in the model's terms, as far as an attempt reads it.
#[derive(Debug)]
pub struct RequestIr {
    pub ingress_protocol: IngressProtocol,
    pub stream: bool,
    pub served_model_id: String,
}

/// What the request left for its attempts.
#[derive(Debug)]
pub struct ProductionReplaySeed {
    pub ingress: IngressProtocol,
    pub raw_body_bytes: u64,
    pub ir: RequestIr,
    pub route_context: ProductionRouteContext,
}

/// A request that attempts are made for.
#[derive(Debug)]
pub struct ProductionLogicalRequest {
    pub ingress: IngressProtocol,
    pub raw_body_bytes: u64,
    pub observed_body_bytes: u64,
    pub body_eos: bool,
    pub ir: Option<RequestIr>,
    pub frozen_candidates: Vec<DecisionCandidateAuthority>,
    pub route_context: Option<ProductionRouteContext>,
}

/// The path of a request target, without its query.
pub fn request_path(path_and_query: &str) -> (r: String)
    ensures
        r@ == before_first(path_and_query@, '?'),
{
    take_before(path_and_query, '?')
}

/// Whether a candidate carries everything that an attempt on it needs.
pub open spec fn is_complete_candidate(candidate: DecisionCandidateAuthority) -> bool {
    candidate.candidate_id is Some && candidate.profile_digest is Some
        && candidate.reason_ledger_identity is Some && candidate.provider_profile is Some
}

/// Whether a request can start: its path names the protocol that it was planned for, and it has
/// candidates, each of them complete.
pub open spec fn can_begin(
    ingress: Option<IngressProtocol>,
    seed: Option<ProductionReplaySeed>,
    candidates: Option<Vec<DecisionCandidateAuthority>>,
) -> bool {
    &&& ingress is Some
    &&& seed matches Some(seed) && seed.ingress == ingress->0 && seed.ir.ingress_protocol
        == ingress->0
    &&& candidates matches Some(candidates) && candidates@.len() > 0 && forall|i: int|
        0 <= i < candidates@.len() ==> is_complete_candidate(#[trigger] candidates@[i])
}

/// Starts a request. `ingress` is the protocol that the request path names.
pub fn begin_request(
    ingress: Option<IngressProtocol>,
    seed: Option<ProductionReplaySeed>,
    candidates: Option<Vec<DecisionCandidateAuthority>>,
) -> (r: Result<ProductionLogicalRequest, String>)
    ensures
        match r {
            Ok(logical) => {
                &&& can_begin(ingress, seed, candidates)
                &&& logical.ingress == ingress->0
                &&& logical.raw_body_bytes == (seed->0).raw_body_bytes
                &&& logical.observed_body_bytes == 0
                &&& !logical.body_eos
                &&& logical.ir == Some((seed->0).ir)
                &&& logical.frozen_candidates == candidates->0
                &&& logical.route_context == Some((seed->0).route_context)
            },
            Err(error) => !can_begin(ingress, seed, candidates) && error@ == "protocol_failed"@,
        },
{
    let ingress = match ingress {
        Some(ingress) => ingress,
        None => return Err("protocol_failed".to_owned()),
    };
    let seed = match seed {
        Some(seed) => seed,
        None => return Err("protocol_failed".to_owned()),
    };
    let frozen = match candidates {
        Some(frozen) => frozen,
        None => return Err("protocol_failed".to_owned()),
    };
    if frozen.len() == 0 {
        return Err("protocol_failed".to_owned());
    }
    let mut i: usize = 0;
    while i < frozen.len()
        invariant
            i <= frozen.len(),
            candidates == Some(frozen),
            forall|j: int| 0 <= j < i ==> is_complete_candidate(#[trigger] frozen@[j]),
        decreases frozen.len() - i,
    {
        let candidate = &frozen[i];
        if candidate.candidate_id.is_none() || candidate.profile_digest.is_none()
            || candidate.reason_ledger_identity.is_none() || candidate.provider_profile.is_none() {
            assert(!is_complete_candidate(frozen@[i as int]));
            return Err("protocol_failed".to_owned());
        }
        i += 1;
    }
    if seed.ingress != ingress || seed.ir.ingress_protocol != ingress {
        return Err("protocol_failed".to_owned());
    }
    Ok(
        ProductionLogicalRequest {
            ingress,
            raw_body_bytes: seed.raw_body_bytes,
            observed_body_bytes: 0,
            body_eos: false,
            ir: Some(seed.ir),
            frozen_candidates: frozen,
            route_context: Some(seed.route_context),
        },
    )
}

/// What of a request one body frame leaves alone.
pub open spec fn same_but_body(
    a: ProductionLogicalRequest,
    b: ProductionLogicalRequest,
) -> bool {
    &&& a.ingress == b.ingress
    &&& a.raw_body_bytes == b.raw_body_bytes
    &&& a.ir == b.ir
    &&& a.frozen_candidates == b.frozen_candidates
    &&& a.route_context == b.route_context
}

/// Takes one frame of the request body. `Ok(true)` is the end of a body of exactly the replayed
/// length: the replayed stream is then to be released, and the outcome given to
/// `finish_request_body`.
pub fn consume_request_body(
    logical: &mut ProductionLogicalRequest,
    frame_bytes: Option<u64>,
    end_stream: bool,
) -> (r: Result<bool, String>)
    ensures
        same_but_body(*final(logical), *old(logical)),
        final(logical).body_eos == old(logical).body_eos,
        ({
            let seen = old(logical).observed_body_bytes + (match frame_bytes {
                Some(bytes) => bytes as int,
                None => 0,
            });
            if old(logical).body_eos || seen > u64::MAX {
                &&& result_view(r) == Err::<bool, _>("protocol_failed"@)
                &&& final(logical).observed_body_bytes == old(logical).observed_body_bytes
            } else {
                &&& final(logical).observed_body_bytes == seen
                &&& result_view(r) == (if !end_stream {
                    Ok(false)
                } else if seen == old(logical).raw_body_bytes {
                    Ok(true)
                } else {
                    Err("protocol_failed"@)
                })
            }
        }),
{
    if logical.body_eos {
        return Err("protocol_failed".to_owned());
    }
    if let Some(bytes) = frame_bytes {
        logical.observed_body_bytes = match logical.observed_body_bytes.checked_add(bytes) {
            Some(sum) => sum,
            None => return Err("protocol_failed".to_owned()),
        };
    }
    if !end_stream {
        return Ok(false);
    }
    if logical.observed_body_bytes != logical.raw_body_bytes {
        return Err("protocol_failed".to_owned());
    }
    Ok(true)
}

/// The replayed stream was released, or failed to be.
pub fn finish_request_body(logical: &mut ProductionLogicalRequest, released: Result<(), String>) -> (r:
    Result<(), String>)
    ensures
        result_view(r) == result_view(released),
        same_but_body(*final(logical), *old(logical)),
        final(logical).observed_body_bytes == old(logical).observed_body_bytes,
        final(logical).body_eos == (old(logical).body_eos || released is Ok),
{
    match released {
        Ok(()) => {
            logical.body_eos = true;
            Ok(())
        },
        Err(error) => Err(error),
    }
}

/// Hands the route context out, once, when the whole body was seen.
pub fn finalize_route_request_context(logical: &mut ProductionLogicalRequest) -> (r: Result<
    ProductionRouteContext,
    String,
>)
    ensures
        final(logical).ingress == old(logical).ingress,
        final(logical).raw_body_bytes == old(logical).raw_body_bytes,
        final(logical).observed_body_bytes == old(logical).observed_body_bytes,
        final(logical).body_eos == old(logical).body_eos,
        final(logical).ir == old(logical).ir,
        final(logical).frozen_candidates == old(logical).frozen_candidates,
        ({
            if !old(logical).body_eos || old(logical).ir is None {
                &&& r matches Err(error) && error@ == "protocol_failed"@
                &&& final(logical).route_context == old(logical).route_context
            } else {
                &&& final(logical).route_context is None
                &&& match old(logical).route_context {
                    Some(context) => if context.ingress == old(logical).ingress {
                        r == Ok::<ProductionRouteContext, String>(context)
                    } else {
                        r matches Err(error) && error@ == "protocol_failed"@
                    },
                    None => r matches Err(error) && error@ == "protocol_failed"@,
                }
            }
        }),
{
    if !logical.body_eos || logical.ir.is_none() {
        return Err("protocol_failed".to_owned());
    }
    match logical.route_context.take() {
        Some(context) => if context.ingress == logical.ingress {
            Ok(context)
        } else {
            Err("protocol_failed".to_owned())
        },
        None => Err("protocol_failed".to_owned()),
    }
}

/// A request that has ended needs its model form no more.
pub fn release_terminal_request(logical: &mut ProductionLogicalRequest)
    ensures
        final(logical).ir is None,
        final(logical).ingress == old(logical).ingress,
        final(logical).raw_body_bytes == old(logical).raw_body_bytes,
        final(logical).observed_body_bytes == old(logical).observed_body_bytes,
        final(logical).body_eos == old(logical).body_eos,
        final(logical).frozen_candidates == old(logical).frozen_candidates,
        final(logical).route_context == old(logical).route_context,
{
    logical.ir = None;
}

/// The candidate of a binding: the first of them.
pub open spec fn candidate_at(
    candidates: Seq<DecisionCandidateAuthority>,
    binding: ResolvedTargetBindingId,
) -> Option<int>
    decreases candidates.len(),
{
    if candidates.len() == 0 {
        None
    } else if candidates[0].binding == binding {
        Some(0)
    } else {
        match candidate_at(candidates.skip(1), binding) {
            Some(i) => Some(i + 1),
            None => None,
        }
    }
}

/// Finds the frozen candidate of a binding, whose target must be the plan's.
pub fn find_candidate(
    logical: &ProductionLogicalRequest,
    binding: ResolvedTargetBindingId,
    stable_target: &str,
) -> (r: Result<usize, String>)
    ensures
        match r {
            Ok(i) => candidate_at(logical.frozen_candidates@, binding) == Some(i as int) && i
                < logical.frozen_candidates@.len()
                && logical.frozen_candidates@[i as int].stable_target@ == stable_target@,
            Err(error) => error@ == "protocol_failed"@ && match candidate_at(
                logical.frozen_candidates@,
                binding,
            ) {
                Some(i) => logical.frozen_candidates@[i].stable_target@ != stable_target@,
                None => true,
            },
        },
{
    let candidates = &logical.frozen_candidates;
    let mut i: usize = 0;
    assert(candidates@.skip(0) == candidates@);
    while i < candidates.len()
        invariant
            i <= candidates.len(),
            candidates@ == logical.frozen_candidates@,
            candidate_at(candidates@, binding) == (match candidate_at(
                candidates@.skip(i as int),
                binding,
            ) {
                Some(j) => Some(j + i),
                None => None,
            }),
        decreases candidates.len() - i,
    {
        assert(candidates@.skip(i as int).skip(1) == candidates@.skip(i + 1));
        if candidates[i].binding == binding {
            if same(candidates[i].stable_target.as_str(), stable_target) {
                return Ok(i);
            }
            return Err("protocol_failed".to_owned());
        }
        i += 1;
    }
    Err("protocol_failed".to_owned())
}

/// What runs a connector.
#[derive(Clone, Copy, Debug, PartialEq, Eq, Structural)]
pub enum ConnectorRuntimeKind {
    BuiltinNative,
    CpaBridge,
}

#[derive(Clone, Copy, Debug, PartialEq, Eq, Structural)]
pub enum OperationalTargetKind {
    RegisteredHttps,
    UserConfiguredNative,
    ManagedCpaLoopback,
}

/// Where an attempt is sent.
#[derive(Debug)]
pub struct OperationalTarget {
    pub kind: OperationalTargetKind,
    pub uri: String,
    pub runtime_epoch: Option<u64>,
    pub target_epoch: Option<u64>,
}

#[derive(Clone, Copy, Debug, PartialEq, Eq, Structural)]
pub enum TransportScheme {
    Http,
    Https,
}

/// An address of the transport: the bits of an IPv4 or IPv6 address, and a port.
#[derive(Clone, Copy, Debug, PartialEq, Eq, Structural)]
pub struct TransportAddress {
    pub ip: IpBits,
    pub port: u16,
}

#[derive(Clone, Copy, Debug, PartialEq, Eq, Structural)]
pub enum IpBits {
    V4(u32),
    V6(u128),
}

/// The transport of a plan. `unresolved_authority` is the name that is still to be looked up.
#[derive(Debug)]
pub struct TransportTarget {
    pub scheme: TransportScheme,
    pub authority: String,
    pub unresolved_authority: Option<String>,
    pub addresses: Vec<TransportAddress>,
    pub sni: Option<String>,
}

pub struct TargetView {
    pub scheme: TransportScheme,
    pub authority: Seq<char>,
    pub unresolved_authority: Option<Seq<char>>,
    pub addresses: Seq<TransportAddress>,
    pub sni: Option<Seq<char>>,
}

impl View for TransportTarget {
    type V = TargetView;

    open spec fn view(&self) -> TargetView {
        TargetView {
            scheme: self.scheme,
            authority: self.authority@,
            unresolved_authority: text_view(self.unresolved_authority),
            addresses: self.addresses@,
            sni: text_view(self.sni),
        }
    }
}

/// The execution that was sealed into a candidate.
#[derive(Debug)]
pub struct SealedCandidateExecution {
    pub schema_version: String,
    pub stable_target_key: String,
    pub credential_destination_ref: String,
    pub logical_endpoint: String,
    pub upstream_model_id: String,
    pub native_transport_model: String,
    pub connector_runtime: ConnectorRuntimeKind,
    pub profile_digest: String,
    pub protocol_set_digest: String,
    pub operational_target: OperationalTarget,
    pub operational_target_digest: String,
    pub protocol_profile: CandidateProtocolProfile,
}

/// What was computed anew over a sealed execution.
#[derive(Debug)]
pub struct ExecutionEvidence {
    /// The digest of the protocol profile.
    pub profile_digest: Option<String>,
    /// The digest of the operational target.
    pub target_digest: Option<String>,
    /// The operational target serves the profile's request path.
    pub target_serves_path: bool,
    /// The operational target is valid for its runtime and logical endpoint.
    pub target_is_valid: bool,
    /// The address that the target's host spells, where it spells one.
    pub host_address: Option<IpBits>,
}

pub open spec fn strip_brackets(host: Seq<char>) -> Seq<char> {
    match after_prefix(host, "["@) {
        Some(rest) => match before_suffix(rest, "]"@) {
            Some(inner) => inner,
            None => host,
        },
        None => host,
    }
}

/// The host without the brackets of an IPv6 literal.
pub fn numeric_host(host: &str) -> (r: String)
    ensures
        r@ == strip_brackets(host@),
{
    match strip_prefix(host, "[") {
        Some(rest) => match strip_suffix(rest.as_str(), "]") {
            Some(inner) => inner,
            None => host.to_owned(),
        },
        None => host.to_owned(),
    }
}

/// Whether a plan's transport goes to a single address and needs no lookup.
pub open spec fn goes_only_to(target: TransportTarget, address: TransportAddress) -> bool {
    target.unresolved_authority is None && target.addresses@ == seq![address]
}

/// Whether the transport of a plan is the one that an operational target names. A registered
/// target is looked up; a configured one is looked up unless its host spells an address, which
/// must then be the only one; a managed loopback must spell its address and its port.
pub open spec fn target_matches(
    kind: OperationalTargetKind,
    uri: Option<UriView>,
    target: TransportTarget,
    host_address: Option<IpBits>,
) -> bool {
    &&& uri matches Some(uri) && uri.authority is Some
    &&& {
        let scheme = (uri->0).scheme;
        let authority = (uri->0).authority->0;
        let planned = match target.unresolved_authority {
            Some(text) => text@,
            None => target.authority@,
        };
        &&& match target.scheme {
            TransportScheme::Http => scheme == Some("http"@),
            TransportScheme::Https => scheme == Some("https"@),
        }
        &&& authority.text == planned
        &&& match kind {
            OperationalTargetKind::RegisteredHttps => target.unresolved_authority is Some,
            OperationalTargetKind::UserConfiguredNative => match host_address {
                Some(ip) => goes_only_to(
                    target,
                    TransportAddress {
                        ip,
                        port: match authority.port {
                            Some(port) => port,
                            None => if target.scheme is Https {
                                443
                            } else {
                                80
                            },
                        },
                    },
                ),
                None => target.unresolved_authority is Some,
            },
            OperationalTargetKind::ManagedCpaLoopback => match (host_address, authority.port) {
                (Some(ip), Some(port)) => goes_only_to(target, TransportAddress { ip, port }),
                _ => false,
            },
        }
    }
}

fn is_only_address(target: &TransportTarget, address: TransportAddress) -> (r: bool)
    ensures
        r == goes_only_to(*target, address),
{
    if target.unresolved_authority.is_some() || target.addresses.len() != 1 {
        return false;
    }
    let only = target.addresses[0];
    assert(target.addresses@ == seq![only]);
    assert(seq![only][0] == only);
    assert(seq![address][0] == address);
    only == address
}

fn optional_is(text: &Option<String>, expected: &str) -> (r: bool)
    ensures
        r == (text_view(*text) == Some(expected@)),
{
    match text {
        Some(text) => same(text.as_str(), expected),
        None => false,
    }
}

/// Holds the transport of a plan against the parts of the target's URI. `host_address` is the
/// address that the URI's host spells.
pub fn uri_matches_plan(
    kind: OperationalTargetKind,
    uri: &Option<UriParts>,
    target: &TransportTarget,
    host_address: Option<IpBits>,
) -> (r: bool)
    ensures
        r == target_matches(
            kind,
            match *uri {
                Some(uri) => Some(uri@),
                None => None,
            },
            *target,
            host_address,
        ),
{
    let uri = match uri {
        Some(uri) => uri,
        None => return false,
    };
    let authority = match &uri.authority {
        Some(authority) => authority,
        None => return false,
    };
    let scheme_matches = match target.scheme {
        TransportScheme::Http => optional_is(&uri.scheme, "http"),
        TransportScheme::Https => optional_is(&uri.scheme, "https"),
    };
    let authority_matches = match &target.unresolved_authority {
        Some(text) => same(authority.text.as_str(), text.as_str()),
        None => same(authority.text.as_str(), target.authority.as_str()),
    };
    if !scheme_matches || !authority_matches {
        return false;
    }
    match kind {
        OperationalTargetKind::RegisteredHttps => target.unresolved_authority.is_some(),
        OperationalTargetKind::UserConfiguredNative => match host_address {
            Some(ip) => {
                let port: u16 = match authority.port {
                    Some(port) => port,
                    None => match target.scheme {
                        TransportScheme::Https => 443,
                        TransportScheme::Http => 80,
                    },
                };
                is_only_address(target, TransportAddress { ip, port })
            },
            None => target.unresolved_authority.is_some(),
        },
        OperationalTargetKind::ManagedCpaLoopback => match (host_address, authority.port) {
            (Some(ip), Some(port)) => is_only_address(target, TransportAddress { ip, port }),
            _ => false,
        },
    }
}

pub fn operational_target_matches_plan(
    operational: &OperationalTarget,
    target: &TransportTarget,
    host_address: Option<IpBits>,
) -> (r: bool)
    ensures
        r == target_matches(operational.kind, read_uri(operational.uri@), *target, host_address),
{
    let uri = parse_uri(operational.uri.as_str());
    uri_matches_plan(operational.kind, &uri, target, host_address)
}

/// The host of an operational target's URI, in the form in which an address is spelled.
pub fn target_host(operational: &OperationalTarget) -> (r: Option<String>)
    ensures
        text_view(r) == (match read_uri(operational.uri@) {
            Some(uri) => match uri.authority {
                Some(authority) => Some(strip_brackets(authority.host)),
                None => None,
            },
            None => None,
        }),
{
    match parse_uri(operational.uri.as_str()) {
        Some(uri) => match &uri.authority {
            Some(authority) => Some(numeric_host(authority.host.as_str())),
            None => None,
        },
        None => None,
    }
}

/// Whether a sealed execution is still exactly what the candidate and the plan say.
pub open spec fn execution_is_sealed(
    execution: SealedCandidateExecution,
    evidence: ExecutionEvidence,
    schema: Seq<char>,
    stable_target: Seq<char>,
    profile_digest: Seq<char>,
    ingress: IngressProtocol,
    target: TransportTarget,
) -> bool {
    let profile = execution.protocol_profile;
    &&& execution.schema_version@ == schema
    &&& execution.stable_target_key@ == stable_target
    &&& !is_blank(execution.credential_destination_ref@)
    &&& !is_blank(execution.logical_endpoint@)
    &&& !is_blank(execution.upstream_model_id@)
    &&& !is_blank(execution.native_transport_model@)
    &&& profile.capability.native_model@ == execution.native_transport_model@
    &&& execution.connector_runtime is BuiltinNative ==> execution.upstream_model_id@
        == execution.native_transport_model@
    &&& text_view(evidence.profile_digest) == Some(profile_digest)
    &&& execution.profile_digest@ == profile_digest
    &&& profile.ingress_protocol == ingress
    &&& execution.connector_runtime is CpaBridge || evidence.target_serves_path
    &&& evidence.target_is_valid
    &&& text_view(evidence.target_digest) == Some(execution.operational_target_digest@)
    &&& is_digest_text(execution.protocol_set_digest@)
    &&& target_matches(
        execution.operational_target.kind,
        read_uri(execution.operational_target.uri@),
        target,
        evidence.host_address,
    )
    &&& profile.connector.authentication is Some
}

/// Accepts a sealed execution of a candidate, or fails the attempt closed.
pub fn check_execution(
    execution: &SealedCandidateExecution,
    evidence: &ExecutionEvidence,
    schema: &str,
    stable_target: &str,
    profile_digest: &str,
    ingress: IngressProtocol,
    target: &TransportTarget,
) -> (r: Result<(), String>)
    ensures
        result_view(r) == (if execution_is_sealed(
            *execution,
            *evidence,
            schema@,
            stable_target@,
            profile_digest@,
            ingress,
            *target,
        ) {
            Ok(())
        } else {
            Err("protocol_failed"@)
        }),
{
    let profile = &execution.protocol_profile;
    let native = match execution.connector_runtime {
        ConnectorRuntimeKind::BuiltinNative => true,
        ConnectorRuntimeKind::CpaBridge => false,
    };
    if !same(execution.schema_version.as_str(), schema) || !same(
        execution.stable_target_key.as_str(),
        stable_target,
    ) || blank(execution.credential_destination_ref.as_str()) || blank(
        execution.logical_endpoint.as_str(),
    ) || blank(execution.upstream_model_id.as_str()) || blank(
        execution.native_transport_model.as_str(),
    ) || !same(
        profile.capability.native_model.as_str(),
        execution.native_transport_model.as_str(),
    ) || (native && !same(
        execution.upstream_model_id.as_str(),
        execution.native_transport_model.as_str(),
    )) || !optional_is(&evidence.profile_digest, profile_digest) || !same(
        execution.profile_digest.as_str(),
        profile_digest,
    ) || profile.ingress_protocol != ingress || (native && !evidence.target_serves_path)
        || !evidence.target_is_valid || !optional_is(
        &evidence.target_digest,
        execution.operational_target_digest.as_str(),
    ) || !is_digest(execution.protocol_set_digest.as_str()) || !operational_target_matches_plan(
        &execution.operational_target,
        target,
        evidence.host_address,
    ) || profile.connector.authentication.is_none() {
        return Err("protocol_failed".to_owned());
    }
    Ok(())
}

/// The codecs that an attempt needs.
#[derive(Clone, Copy, Debug, PartialEq, Eq, Structural)]
pub struct CodecPlan {
    pub streaming: bool,
    pub native_output: bool,
    pub needs_renderer: bool,
}

/// Plans the codecs of an attempt: a client renderer is needed where a stream leaves in another
/// protocol than it comes in.
pub fn plan_codecs(ir: &Option<RequestIr>, profile: &CandidateProtocolProfile) -> (r: Result<
    CodecPlan,
    String,
>)
    ensures
        match *ir {
            Some(ir) => r == Ok::<CodecPlan, String>(
                CodecPlan {
                    streaming: ir.stream,
                    native_output: profile.ingress_protocol == profile.capability.upstream_protocol,
                    needs_renderer: ir.stream && profile.ingress_protocol
                        != profile.capability.upstream_protocol,
                },
            ),
            None => r matches Err(error) && error@ == "protocol_failed"@,
        },
{
    match ir {
        Some(ir) => {
            let native_output = profile.ingress_protocol == profile.capability.upstream_protocol;
            Ok(
                CodecPlan {
                    streaming: ir.stream,
                    native_output,
                    needs_renderer: ir.stream && !native_output,
                },
            )
        },
        None => Err("protocol_failed".to_owned()),
    }
}

/// Whole milliseconds that cover a remaining time, at least one.
pub open spec fn covering_millis(until: u128, now: u128) -> nat {
    if until <= now {
        1
    } else {
        let millis = (until - now + 999_999) / 1_000_000;
        if millis > u64::MAX {
            u64::MAX as nat
        } else {
            millis as nat
        }
    }
}

pub open spec fn cooling_prefix(binding: bool) -> Seq<char> {
    if binding {
        "binding_cooling_down:"@
    } else {
        "credential_cooling_down:"@
    }
}

/// The error text of a permit that is not to be had at `now`.
pub open spec fn unavailable_text(
    availability: PermitAvailability,
    binding: bool,
    now: u128,
) -> Seq<char> {
    match availability {
        PermitAvailability::Permit(_) => Seq::empty(),
        PermitAvailability::CoolingDown { until } => cooling_prefix(binding) + decimal_text(
            covering_millis(until, now),
        ),
        PermitAvailability::ProbeBusy => if binding {
            "binding_probe_busy"@
        } else {
            "credential_probe_busy"@
        },
        PermitAvailability::Disabled => if binding {
            "binding_disabled"@
        } else {
            "credential_disabled"@
        },
    }
}

pub fn permit_or_materialization_error(
    availability: PermitAvailability,
    binding: bool,
    now: u128,
) -> (r: Result<StatePermit, String>)
    ensures
        result_view(r) == (match availability {
            PermitAvailability::Permit(permit) => Ok(permit),
            _ => Err(unavailable_text(availability, binding, now)),
        }),
{
    match availability {
        PermitAvailability::Permit(permit) => Ok(permit),
        PermitAvailability::CoolingDown { until } => {
            let millis: u64 = if until <= now {
                1
            } else {
                let remaining: u128 = until - now;
                let whole: u128 = remaining / 1_000_000;
                let rest: u128 = remaining % 1_000_000;
                assert(remaining == whole * 1_000_000 + rest);
                let rounded: u128 = if rest != 0 {
                    whole + 1
                } else {
                    whole
                };
                assert((remaining + 999_999) / 1_000_000 == rounded);
                if rounded > u64::MAX as u128 {
                    u64::MAX
                } else {
                    rounded as u64
                }
            };
            let mut text = if binding {
                "binding_cooling_down:".to_owned()
            } else {
                "credential_cooling_down:".to_owned()
            };
            text.append(decimal(millis).as_str());
            Err(text)
        },
        PermitAvailability::ProbeBusy => Err(
            if binding {
                "binding_probe_busy".to_owned()
            } else {
                "credential_probe_busy".to_owned()
            },
        ),
        PermitAvailability::Disabled => Err(
            if binding {
                "binding_disabled".to_owned()
            } else {
                "credential_disabled".to_owned()
            },
        ),
    }
}

/// The delay that a cooldown text announces, in nanoseconds.
pub open spec fn announced_cooldown(error: Seq<char>, prefix: Seq<char>) -> Option<u128> {
    match after_prefix(error, prefix) {
        Some(rest) => match parsed_u64(rest) {
            Some(millis) => if millis != 0 {
                Some((millis * 1_000_000) as u128)
            } else {
                None
            },
            None => None,
        },
        None => None,
    }
}

pub fn parse_cooldown(error: &str, prefix: &str) -> (r: Option<u128>)
    ensures
        r == announced_cooldown(error@, prefix@),
{
    let rest = match strip_prefix(error, prefix) {
        Some(rest) => rest,
        None => return None,
    };
    match parse_u64(rest.as_str()) {
        Some(millis) => if millis != 0 {
            Some(millis as u128 * 1_000_000)
        } else {
            None
        },
        None => None,
    }
}

#[derive(Clone, Copy, Debug, PartialEq, Eq, Structural)]
pub enum AttemptMaterializationFailureClass {
    Credential,
    Dns,
    Materialization,
}

/// A classified failure to materialize an attempt.
#[derive(Debug)]
pub struct AttemptMaterializationFailure {
    pub class: AttemptMaterializationFailureClass,
    pub provider: ProviderClassificationFacts,
    pub termination_reason: String,
}

/// The class of a materialization error.
pub open spec fn materialization_class(error: Seq<char>) -> AttemptMaterializationFailureClass {
    if error == "dns_failed"@ {
        AttemptMaterializationFailureClass::Dns
    } else if error == "credential_exhausted"@ || error == "credential_probe_busy"@ || error
        == "credential_disabled"@ || announced_cooldown(error, cooling_prefix(false)) is Some {
        AttemptMaterializationFailureClass::Credential
    } else {
        AttemptMaterializationFailureClass::Materialization
    }
}

pub open spec fn cooldown_of(error: Seq<char>) -> Option<u128> {
    match announced_cooldown(error, cooling_prefix(true)) {
        Some(delay) => Some(delay),
        None => announced_cooldown(error, cooling_prefix(false)),
    }
}

pub open spec fn is_probe_busy(error: Seq<char>) -> bool {
    error == "binding_probe_busy"@ || error == "credential_probe_busy"@
}

pub open spec fn is_disabled(error: Seq<char>) -> bool {
    error == "binding_disabled"@ || error == "credential_disabled"@
}

/// Whether another candidate or credential may be tried after a materialization error.
pub open spec fn is_relayable(error: Seq<char>) -> bool {
    cooldown_of(error) is Some || is_probe_busy(error) || is_disabled(error) || error
        == "binding_unavailable"@ || error == "credential_exhausted"@ || error == "dns_failed"@
}

/// The facts of a materialization error.
pub open spec fn materialization_facts(error: Seq<char>) -> FactsView {
    FactsView {
        error_class: Some(
            if cooldown_of(error) is Some {
                "runtime_state_cooling_down"@
            } else if is_probe_busy(error) {
                "runtime_state_probe_busy"@
            } else if is_disabled(error) {
                "runtime_state_disabled"@
            } else if is_relayable(error) {
                "materialization_retryable"@
            } else {
                "materialization_fail_closed"@
            },
        ),
        retryability: if is_relayable(error) {
            RetryabilityFact::Retryable
        } else {
            RetryabilityFact::NonRetryable
        },
        retry_after: match cooldown_of(error) {
            Some(delay) => Some(delay),
            None => if is_probe_busy(error) {
                Some(1_000_000_000)
            } else {
                None
            },
        },
        readiness: "materialization_failed"@,
        ..unknown_facts()
    }
}

pub fn classify_materialization_failure(error: &str) -> (r: AttemptMaterializationFailure)
    ensures
        r.class == materialization_class(error@),
        r.provider@ == materialization_facts(error@),
        r.termination_reason@ == (match materialization_class(error@) {
            AttemptMaterializationFailureClass::Credential => "credential"@,
            AttemptMaterializationFailureClass::Dns => "dns"@,
            AttemptMaterializationFailureClass::Materialization => "materialization"@,
        }),
{
    let binding_cooldown = parse_cooldown(error, "binding_cooling_down:");
    let credential_cooldown = parse_cooldown(error, "credential_cooling_down:");
    let cooldown = match binding_cooldown {
        Some(delay) => Some(delay),
        None => credential_cooldown,
    };
    let probe_busy = same(error, "binding_probe_busy") || same(error, "credential_probe_busy");
    let disabled = same(error, "binding_disabled") || same(error, "credential_disabled");
    let retryable = cooldown.is_some() || probe_busy || disabled || same(
        error,
        "binding_unavailable",
    ) || same(error, "credential_exhausted") || same(error, "dns_failed");
    let class = if same(error, "dns_failed") {
        AttemptMaterializationFailureClass::Dns
    } else if same(error, "credential_exhausted") || same(error, "credential_probe_busy") || same(
        error,
        "credential_disabled",
    ) || credential_cooldown.is_some() {
        AttemptMaterializationFailureClass::Credential
    } else {
        AttemptMaterializationFailureClass::Materialization
    };
    let error_class = if cooldown.is_some() {
        "runtime_state_cooling_down".to_owned()
    } else if probe_busy {
        "runtime_state_probe_busy".to_owned()
    } else if disabled {
        "runtime_state_disabled".to_owned()
    } else if retryable {
        "materialization_retryable".to_owned()
    } else {
        "materialization_fail_closed".to_owned()
    };
    let termination_reason = match class {
        AttemptMaterializationFailureClass::Credential => "credential".to_owned(),
        AttemptMaterializationFailureClass::Dns => "dns".to_owned(),
        AttemptMaterializationFailureClass::Materialization => "materialization".to_owned(),
    };
    AttemptMaterializationFailure {
        class,
        provider: ProviderClassificationFacts {
            error_class: Some(error_class),
            retryability: if retryable {
                RetryabilityFact::Retryable
            } else {
                RetryabilityFact::NonRetryable
            },
            http_status: None,
            retry_after: match cooldown {
                Some(delay) => Some(delay),
                None => if probe_busy {
                    Some(1_000_000_000)
                } else {
                    None
                },
            },
            readiness: "materialization_failed".to_owned(),
            model_event: None,
            usage: None,
            ended_at: None,
        },
        termination_reason,
    }
}

/// A target that rests is reported so that its rest survives the error text: the failure is
/// retryable, is charged to the binding or to the credential that rests, and asks to wait at
/// least as long as the rest lasts, less than a millisecond longer.
pub proof fn cooldown_survives_its_error_text(until: u128, binding: bool, now: u128)
    requires
        until > now,
        until - now <= u64::MAX * 1_000_000,
    ensures
        ({
            let error = unavailable_text(PermitAvailability::CoolingDown { until }, binding, now);
            let facts = materialization_facts(error);
            &&& facts.error_class == Some("runtime_state_cooling_down"@)
            &&& facts.retryability == RetryabilityFact::Retryable
            &&& facts.retry_after matches Some(delay) && until - now <= delay < until - now
                + 1_000_000
            &&& materialization_class(error) == (if binding {
                AttemptMaterializationFailureClass::Materialization
            } else {
                AttemptMaterializationFailureClass::Credential
            })
        }),
{
    let millis = covering_millis(until, now);
    let prefix = cooling_prefix(binding);
    let error = prefix + decimal_text(millis);
    reveal_strlit("binding_cooling_down:");
    reveal_strlit("credential_cooling_down:");
    reveal_strlit("dns_failed");
    reveal_strlit("credential_exhausted");
    reveal_strlit("credential_probe_busy");
    reveal_strlit("credential_disabled");
    decimal_text_denotes_its_number(millis);
    assert(error.take(prefix.len() as int) == prefix);
    assert(error.skip(prefix.len() as int) == decimal_text(millis));
    assert(millis >= 1);
    assert(announced_cooldown(error, prefix) == Some((millis * 1_000_000) as u128));
    if binding {
        assert(error[0] == 'b');
        assert("credential_cooling_down:"@[0] == 'c');
        if error.len() >= 24 {
            assert(error.take(24)[0] == 'b');
        }
        assert(announced_cooldown(error, cooling_prefix(false)) is None);
        assert(error != "dns_failed"@) by {
            assert("dns_failed"@[0] == 'd');
        }
        assert(error != "credential_exhausted"@) by {
            assert("credential_exhausted"@[0] == 'c');
        }
        assert(error != "credential_probe_busy"@) by {
            assert("credential_probe_busy"@[0] == 'c');
        }
        assert(error != "credential_disabled"@) by {
            assert("credential_disabled"@[0] == 'c');
        }
    } else {
        assert(error[0] == 'c');
        assert("binding_cooling_down:"@[0] == 'b');
        if error.len() >= 21 {
            assert(error.take(21)[0] == 'c');
        }
        assert(announced_cooldown(error, cooling_prefix(true)) is None);
        assert(error != "dns_failed"@) by {
            assert("dns_failed"@[0] == 'd');
        }
    }
}

/// Whether a credential must be leased. A profile without authentication goes with a reference
/// to no credential, and with no other.
pub fn needs_credential(profile: &CandidateProtocolProfile, credential_ref: &str) -> (r: Result<
    bool,
    String,
>)
    ensures
        result_view(r) == (match profile.connector.authentication {
            Some(authentication) => if (authentication is Anonymous) == (after_prefix(
                credential_ref@,
                "credential/none/"@,
            ) is Some) {
                Ok(!(authentication is Anonymous))
            } else {
                Err("protocol_failed"@)
            },
            None => Err("protocol_failed"@),
        }),
{
    let anonymous = match profile.connector.authentication {
        Some(AuthenticationSemantics::Anonymous) => true,
        Some(AuthenticationSemantics::Required) => false,
        None => return Err("protocol_failed".to_owned()),
    };
    if anonymous != starts_with(credential_ref, "credential/none/") {
        return Err("protocol_failed".to_owned());
    }
    Ok(!anonymous)
}

/// The endpoint that a lease names: a native connector's own target, a bridge's logical endpoint.
pub open spec fn lease_endpoint(execution: SealedCandidateExecution, lease_uri: Seq<char>) -> Seq<
    char,
> {
    match execution.connector_runtime {
        ConnectorRuntimeKind::BuiltinNative => lease_uri,
        ConnectorRuntimeKind::CpaBridge => execution.logical_endpoint@,
    }
}

pub fn lease_logical_endpoint(execution: &SealedCandidateExecution, lease_target_uri: &str) -> (r:
    String)
    ensures
        r@ == lease_endpoint(*execution, lease_target_uri@),
{
    match execution.connector_runtime {
        ConnectorRuntimeKind::BuiltinNative => lease_target_uri.to_owned(),
        ConnectorRuntimeKind::CpaBridge => execution.logical_endpoint.clone(),
    }
}

/// A native target that the profile carries for itself.
#[derive(Debug)]
pub struct NativeTarget {
    pub operational_target: OperationalTarget,
    /// The target is valid for the profile.
    pub valid: bool,
}

/// Which target the lease is for.
#[derive(Clone, Copy, Debug, PartialEq, Eq, Structural)]
pub enum LeaseTarget {
    /// The profile's own target.
    Profile,
    /// The execution's target, for the request path.
    ExecutionForPath,
    /// The execution's target.
    Execution,
}

/// The target of a lease. A native connector uses the profile's own target where it has one, and
/// else the execution's target for the request path; a bridge uses the execution's target.
pub fn lease_target_for_request(
    execution: &SealedCandidateExecution,
    native_target: &Option<NativeTarget>,
    target_serves_path: bool,
) -> (r: Result<LeaseTarget, String>)
    ensures
        result_view(r) == (match execution.connector_runtime {
            ConnectorRuntimeKind::CpaBridge => Ok(LeaseTarget::Execution),
            ConnectorRuntimeKind::BuiltinNative => match *native_target {
                Some(target) => if target.valid {
                    Ok(LeaseTarget::Profile)
                } else {
                    Err("protocol_failed"@)
                },
                None => if target_serves_path {
                    Ok(LeaseTarget::ExecutionForPath)
                } else {
                    Err("protocol_failed"@)
                },
            },
        }),
{
    match execution.connector_runtime {
        ConnectorRuntimeKind::CpaBridge => Ok(LeaseTarget::Execution),
        ConnectorRuntimeKind::BuiltinNative => match native_target {
            Some(target) => if target.valid {
                Ok(LeaseTarget::Profile)
            } else {
                Err("protocol_failed".to_owned())
            },
            None => if target_serves_path {
                Ok(LeaseTarget::ExecutionForPath)
            } else {
                Err("protocol_failed".to_owned())
            },
        },
    }
}

/// A bridge's own address for one credential.
#[derive(Debug)]
pub struct TransportOverride {
    pub address: TransportAddress,
    pub address_text: String,
    pub request_path: String,
}

/// A leased credential, apart from its secret.
#[derive(Debug)]
pub struct CredentialLease {
    pub credential_ref: String,
    pub key_id: String,
    pub generation: u64,
    pub transport_override: Option<TransportOverride>,
}

/// The answer of the credential authority.
#[derive(Debug)]
pub enum LeaseOutcome {
    Failed,
    Exhausted,
    Leased(CredentialLease),
}

/// The key of a leased credential's state.
pub open spec fn credential_key(stable_target: Seq<char>, lease: CredentialLease) -> StateKeyView {
    StateKeyView::Credential {
        stable_target,
        credential_ref: lease.credential_ref@,
        key_id: lease.key_id@,
        generation: lease.generation,
    }
}

/// The state key of a leased credential. A lease of another credential than was asked for is a
/// failure of the authority.
pub fn credential_state_key(
    stable_target: &str,
    credential_ref: &str,
    lease: &LeaseOutcome,
) -> (r: Result<RuntimeStateKey, String>)
    ensures
        match *lease {
            LeaseOutcome::Failed => r matches Err(error) && error@ == "authority_failed"@,
            LeaseOutcome::Exhausted => r matches Err(error) && error@ == "credential_exhausted"@,
            LeaseOutcome::Leased(lease) => if lease.credential_ref@ == credential_ref@ {
                r matches Ok(key) && key@ == credential_key(stable_target@, lease)
            } else {
                r matches Err(error) && error@ == "authority_failed"@
            },
        },
{
    match lease {
        LeaseOutcome::Failed => Err("authority_failed".to_owned()),
        LeaseOutcome::Exhausted => Err("credential_exhausted".to_owned()),
        LeaseOutcome::Leased(lease) => {
            if !same(lease.credential_ref.as_str(), credential_ref) {
                return Err("authority_failed".to_owned());
            }
            Ok(
                RuntimeStateKey::Credential {
                    stable_target: stable_target.to_owned(),
                    credential_ref: lease.credential_ref.clone(),
                    key_id: lease.key_id.clone(),
                    generation: lease.generation,
                },
            )
        },
    }
}

/// What is left to do for the transport of an attempt.
#[derive(Debug)]
pub enum TargetStep {
    /// Use this target.
    Use(TransportTarget),
    /// Look this host and port up.
    LookUp { host: String, port: u16 },
    /// The plan's own target needs no lookup.
    Keep,
}

fn copied_addresses(addresses: &Vec<TransportAddress>) -> (r: Vec<TransportAddress>)
    ensures
        r@ == addresses@,
{
    let mut copy: Vec<TransportAddress> = Vec::new();
    let mut i: usize = 0;
    while i < addresses.len()
        invariant
            i <= addresses.len(),
            copy@ == addresses@.take(i as int),
        decreases addresses.len() - i,
    {
        copy.push(addresses[i]);
        assert(addresses@.take(i + 1) == addresses@.take(i as int).push(addresses@[i as int]));
        i += 1;
    }
    assert(addresses@.take(i as int) == addresses@);
    copy
}

pub(crate) fn copied_target(target: &TransportTarget) -> (r: TransportTarget)
    ensures
        r@ == target@,
{
    TransportTarget {
        scheme: target.scheme,
        authority: target.authority.clone(),
        unresolved_authority: super::facts::copied_text(&target.unresolved_authority),
        addresses: copied_addresses(&target.addresses),
        sni: super::facts::copied_text(&target.sni),
    }
}

/// Whether a bridge may redirect the attempt to an address of its own.
pub open spec fn override_is_allowed(
    execution: SealedCandidateExecution,
    target: TransportOverride,
) -> bool {
    &&& execution.connector_runtime is CpaBridge
    &&& execution.operational_target.runtime_epoch is Some
    &&& target.request_path@ == execution.protocol_profile.connector.request_path@
}

/// The host and port to look up for a target.
pub open spec fn lookup_of(authority: Option<AuthorityView>, scheme: TransportScheme) -> Option<
    (Seq<char>, u16),
> {
    match authority {
        Some(authority) => Some(
            (
                authority.host,
                match authority.port {
                    Some(port) => port,
                    None => match scheme {
                        TransportScheme::Http => 80,
                        TransportScheme::Https => 443,
                    },
                },
            ),
        ),
        None => None,
    }
}

/// The host and port of an authority: its own port, or the scheme's.
pub fn lookup_target(authority: Option<AuthorityParts>, scheme: TransportScheme) -> (r: Result<
    (String, u16),
    String,
>)
    ensures
        match lookup_of(
            match authority {
                Some(parts) => Some(parts@),
                None => None,
            },
            scheme,
        ) {
            Some((host, port)) => r matches Ok(pair) && pair.0@ == host && pair.1 == port,
            None => r matches Err(error) && error@ == "dns_failed"@,
        },
{
    match authority {
        Some(parts) => {
            let port: u16 = match parts.port {
                Some(port) => port,
                None => match scheme {
                    TransportScheme::Http => 80,
                    TransportScheme::Https => 443,
                },
            };
            Ok((parts.host, port))
        },
        None => Err("dns_failed".to_owned()),
    }
}

pub fn dns_lookup_target(authority: &str, scheme: TransportScheme) -> (r: Result<
    (String, u16),
    String,
>)
    ensures
        match lookup_of(read_authority(authority@), scheme) {
            Some((host, port)) => r matches Ok(pair) && pair.0@ == host && pair.1 == port,
            None => r matches Err(error) && error@ == "dns_failed"@,
        },
{
    lookup_target(parse_authority(authority), scheme)
}

/// The plan's target, redirected to a bridge's own address over plain HTTP.
pub open spec fn redirected(planned: TargetView, target: TransportOverride) -> TargetView {
    TargetView {
        scheme: TransportScheme::Http,
        authority: target.address_text@,
        addresses: seq![target.address],
        sni: None,
        ..planned
    }
}

/// The plan's target at the addresses that a lookup found.
pub open spec fn looked_up(planned: TargetView, addresses: Seq<TransportAddress>) -> TargetView {
    TargetView { unresolved_authority: None, addresses, ..planned }
}

/// Chooses the transport of an attempt. A leased bridge address goes first, over plain HTTP to
/// that address alone; a bridge without one fails; any other attempt goes where its plan says.
pub fn choose_target(
    execution: &SealedCandidateExecution,
    planned: &TransportTarget,
    transport_override: Option<&TransportOverride>,
) -> (r: Result<TargetStep, String>)
    ensures
        match transport_override {
            Some(target) => if override_is_allowed(*execution, *target) {
                r matches Ok(TargetStep::Use(used)) && used@ == redirected(planned@, *target)
            } else {
                r matches Err(error) && error@ == "authority_failed"@
            },
            None => if execution.connector_runtime is CpaBridge {
                r matches Err(error) && error@ == "authority_failed"@
            } else {
                match planned.unresolved_authority {
                    None => r matches Ok(TargetStep::Keep),
                    Some(authority) => match lookup_of(
                        read_authority(authority@),
                        planned.scheme,
                    ) {
                        Some(wanted) => r matches Ok(TargetStep::LookUp { host, port }) && host@
                            == wanted.0 && port == wanted.1,
                        None => r matches Err(error) && error@ == "dns_failed"@,
                    },
                }
            },
        },
{
    let bridge = match execution.connector_runtime {
        ConnectorRuntimeKind::CpaBridge => true,
        ConnectorRuntimeKind::BuiltinNative => false,
    };
    match transport_override {
        Some(target) => {
            if !bridge || execution.operational_target.runtime_epoch.is_none() || !same(
                target.request_path.as_str(),
                execution.protocol_profile.connector.request_path.as_str(),
            ) {
                return Err("authority_failed".to_owned());
            }
            let mut used = copied_target(planned);
            used.scheme = TransportScheme::Http;
            used.authority = target.address_text.clone();
            let mut addresses: Vec<TransportAddress> = Vec::new();
            addresses.push(target.address);
            used.addresses = addresses;
            used.sni = None;
            assert(used.addresses@ =~= seq![target.address]);
            Ok(TargetStep::Use(used))
        },
        None => {
            if bridge {
                return Err("authority_failed".to_owned());
            }
            match &planned.unresolved_authority {
                None => Ok(TargetStep::Keep),
                Some(authority) => match dns_lookup_target(authority.as_str(), planned.scheme) {
                    Ok((host, port)) => Ok(TargetStep::LookUp { host, port }),
                    Err(error) => Err(error),
                },
            }
        },
    }
}

/// Finishes a lookup; one that found nothing fails the attempt.
pub fn finish_lookup(planned: &TransportTarget, found: Option<&Vec<TransportAddress>>) -> (r:
    Result<TransportTarget, String>)
    ensures
        match found {
            Some(addresses) => if addresses@.len() > 0 {
                r matches Ok(target) && target@ == looked_up(planned@, addresses@)
            } else {
                r matches Err(error) && error@ == "dns_failed"@
            },
            None => r matches Err(error) && error@ == "dns_failed"@,
        },
{
    match found {
        Some(addresses) => {
            if addresses.len() == 0 {
                return Err("dns_failed".to_owned());
            }
            let mut target = copied_target(planned);
            target.unresolved_authority = None;
            target.addresses = copied_addresses(addresses);
            Ok(target)
        },
        None => Err("dns_failed".to_owned()),
    }
}

/// The memory that a tool projection retains and that is to be reserved. A projection that cannot
/// count its bytes fails the attempt.
pub fn projection_reservation(retained: Option<Option<usize>>) -> (r: Result<Option<usize>, String>)
    ensures
        result_view(r) == (match retained {
            None => Ok(None),
            Some(None) => Err("protocol_failed"@),
            Some(Some(bytes)) => Ok(
                if bytes == 0 {
                    None
                } else {
                    Some(bytes)
                },
            ),
        }),
{
    match retained {
        None => Ok(None),
        Some(None) => Err("protocol_failed".to_owned()),
        Some(Some(bytes)) => Ok(
            if bytes == 0 {
                None
            } else {
                Some(bytes)
            },
        ),
    }
}

/// Whether a character may stand in a header value.
pub open spec fn is_value_char(c: char) -> bool {
    (c as u32 >= 32 && c as u32 != 127) || c as u32 == 9
}

pub open spec fn is_header_value(s: Seq<char>) -> bool {
    forall|i: int| 0 <= i < s.len() ==> is_value_char(#[trigger] s[i])
}

/// Whether a character may stand in a header name.
pub open spec fn is_name_char(c: char) -> bool {
    let u = c as u32;
    ||| 48 <= u <= 57
    ||| 65 <= u <= 90
    ||| 97 <= u <= 122
    ||| c == '!' || c == '#' || c == '$' || c == '%' || c == '&' || c == '\'' || c == '*'
    ||| c == '+' || c == '-' || c == '.' || c == '^' || c == '_' || c == '`' || c == '|' || c == '~'
}

/// Whether a text names a header: some token characters, no more than a header name may have.
pub open spec fn is_header_name(s: Seq<char>) -> bool {
    0 < s.len() <= 65535 && forall|i: int| 0 <= i < s.len() ==> is_name_char(#[trigger] s[i])
}

fn valid_header_value(s: &str) -> (r: bool)
    ensures
        r == is_header_value(s@),
{
    let text = crate::text::chars_of(s);
    let mut i: usize = 0;
    while i < text.len()
        invariant
            i <= text.len(),
            text@ == s@,
            forall|j: int| 0 <= j < i ==> is_value_char(#[trigger] s@[j]),
        decreases text.len() - i,
    {
        let u = text[i] as u32;
        if !((u >= 32 && u != 127) || u == 9) {
            assert(!is_value_char(s@[i as int]));
            return false;
        }
        i += 1;
    }
    true
}

fn valid_header_name(s: &str) -> (r: bool)
    ensures
        r == is_header_name(s@),
{
    let text = crate::text::chars_of(s);
    if text.len() == 0 || text.len() > 65535 {
        return false;
    }
    let mut i: usize = 0;
    while i < text.len()
        invariant
            i <= text.len(),
            text@ == s@,
            forall|j: int| 0 <= j < i ==> is_name_char(#[trigger] s@[j]),
        decreases text.len() - i,
    {
        let c = text[i];
        let u = c as u32;
        let token = (48 <= u && u <= 57) || (65 <= u && u <= 90) || (97 <= u && u <= 122) || c
            == '!' || c == '#' || c == '$' || c == '%' || c == '&' || c == '\'' || c == '*' || c
            == '+' || c == '-' || c == '.' || c == '^' || c == '_' || c == '`' || c == '|' || c
            == '~';
        if !token {
            assert(!is_name_char(s@[i as int]));
            return false;
        }
        i += 1;
    }
    true
}

/// The headers of a request: each name once, in lower case.
#[derive(Debug)]
pub struct RequestHeaders {
    pub entries: Vec<(String, String)>,
}

/// Which value each name has; the last entry of a name counts.
pub open spec fn header_map(entries: Seq<(String, String)>) -> Map<Seq<char>, Seq<char>>
    decreases entries.len(),
{
    if entries.len() == 0 {
        Map::empty()
    } else {
        header_map(entries.drop_last()).insert(entries.last().0@, entries.last().1@)
    }
}

impl View for RequestHeaders {
    type V = Map<Seq<char>, Seq<char>>;

    open spec fn view(&self) -> Map<Seq<char>, Seq<char>> {
        header_map(self.entries@)
    }
}

proof fn lemma_header_map_update(entries: Seq<(String, String)>, at: int, value: String)
    requires
        0 <= at < entries.len(),
        forall|i: int, j: int|
            0 <= i < j < entries.len() ==> (#[trigger] entries[i]).0@ != (#[trigger] entries[j]).0@,
    ensures
        header_map(entries.update(at, (entries[at].0, value))) == header_map(entries).insert(
            entries[at].0@,
            value@,
        ),
    decreases entries.len(),
{
    let updated = entries.update(at, (entries[at].0, value));
    if at == entries.len() - 1 {
        assert(updated.drop_last() == entries.drop_last());
        assert(header_map(updated) == header_map(entries).insert(entries[at].0@, value@));
    } else {
        let head = entries.drop_last();
        lemma_header_map_update(head, at, value);
        assert(updated.drop_last() == head.update(at, (head[at].0, value)));
        assert(entries.last().0@ != entries[at].0@);
        assert(header_map(updated) == header_map(entries).insert(entries[at].0@, value@));
    }
}

impl RequestHeaders {
    pub open spec fn wf(self) -> bool {
        forall|i: int, j: int|
            0 <= i < j < self.entries@.len() ==> (#[trigger] self.entries@[i]).0@
                != (#[trigger] self.entries@[j]).0@
    }

    pub fn new() -> (r: Self)
        ensures
            r.wf(),
            r@ == Map::<Seq<char>, Seq<char>>::empty(),
    {
        RequestHeaders { entries: Vec::new() }
    }

    /// Sets a header, in place of any other value of its name.
    pub fn insert(&mut self, name: String, value: String)
        requires
            old(self).wf(),
        ensures
            final(self).wf(),
            final(self)@ == old(self)@.insert(name@, value@),
    {
        let mut i: usize = 0;
        while i < self.entries.len()
            invariant
                i <= self.entries.len(),
                *self == *old(self),
                self.wf(),
                forall|j: int| 0 <= j < i ==> (#[trigger] self.entries@[j]).0@ != name@,
            decreases self.entries.len() - i,
        {
            if same(self.entries[i].0.as_str(), name.as_str()) {
                proof {
                    lemma_header_map_update(self.entries@, i as int, value);
                }
                let kept = self.entries[i].0.clone();
                let ghost before = self.entries@;
                self.entries.set(i, (kept, value));
                assert(self.entries@ == before.update(i as int, (before[i as int].0, value)));
                return;
            }
            i += 1;
        }
        let ghost before = self.entries@;
        self.entries.push((name, value));
        assert(self.entries@.drop_last() == before);
    }
}

/// The headers that a connector asks for, put over some others in order.
pub open spec fn with_required(
    headers: Map<Seq<char>, Seq<char>>,
    required: Seq<(String, String)>,
) -> Map<Seq<char>, Seq<char>>
    decreases required.len(),
{
    if required.len() == 0 {
        headers
    } else {
        with_required(headers, required.drop_last()).insert(
            lowered(required.last().0@),
            required.last().1@,
        )
    }
}

/// Whether all headers that a connector asks for are valid.
pub open spec fn required_are_valid(required: Seq<(String, String)>) -> bool {
    forall|i: int|
        0 <= i < required.len() ==> is_header_name((#[trigger] required[i]).0@) && is_header_value(
            required[i].1@,
        )
}

/// The headers of an attempt before the credential signs it.
pub open spec fn unsigned_headers(
    authority: Seq<char>,
    connector: ConnectorHeaders,
    wire_bytes: u64,
) -> Map<Seq<char>, Seq<char>> {
    with_required(
        Map::<Seq<char>, Seq<char>>::empty().insert("host"@, authority).insert(
            "content-type"@,
            connector.content_type@,
        ),
        connector.required_headers@,
    ).insert("content-length"@, decimal_text(wire_bytes as nat))
}

/// The headers of an attempt before the credential signs it: the host, the content type, what the
/// connector asks for, and the length of the body last, so that nothing else sets it.
pub fn request_headers(
    authority: &str,
    connector: &Option<ConnectorHeaders>,
    wire_bytes: u64,
) -> (r: Result<RequestHeaders, String>)
    ensures
        match *connector {
            Some(connector) => if is_header_value(authority@) && is_header_value(
                connector.content_type@,
            ) && required_are_valid(connector.required_headers@) {
                r matches Ok(headers) && headers.wf() && headers@ == unsigned_headers(
                    authority@,
                    connector,
                    wire_bytes,
                )
            } else {
                r matches Err(error) && error@ == "protocol_failed"@
            },
            None => r matches Err(error) && error@ == "protocol_failed"@,
        },
{
    if !valid_header_value(authority) {
        return Err("protocol_failed".to_owned());
    }
    let wanted = match connector {
        Some(wanted) => wanted,
        None => return Err("protocol_failed".to_owned()),
    };
    if !valid_header_value(wanted.content_type.as_str()) {
        return Err("protocol_failed".to_owned());
    }
    let mut headers = RequestHeaders::new();
    headers.insert("host".to_owned(), authority.to_owned());
    headers.insert("content-type".to_owned(), wanted.content_type.clone());
    let ghost base = headers@;
    let required = &wanted.required_headers;
    let mut i: usize = 0;
    assert(required@.take(0) == Seq::<(String, String)>::empty());
    while i < required.len()
        invariant
            i <= required.len(),
            *connector == Some(*wanted),
            required@ == wanted.required_headers@,
            headers.wf(),
            headers@ == with_required(base, required@.take(i as int)),
            forall|j: int|
                0 <= j < i ==> is_header_name((#[trigger] required@[j]).0@) && is_header_value(
                    required@[j].1@,
                ),
        decreases required.len() - i,
    {
        let (name, value) = &required[i];
        if !valid_header_name(name.as_str()) || !valid_header_value(value.as_str()) {
            assert(!(is_header_name(required@[i as int].0@) && is_header_value(
                required@[i as int].1@,
            )));
            return Err("protocol_failed".to_owned());
        }
        headers.insert(lowercase(name.as_str()), value.clone());
        assert(required@.take(i + 1).drop_last() == required@.take(i as int));
        i += 1;
    }
    assert(required@.take(i as int) == required@);
    headers.insert("content-length".to_owned(), decimal(wire_bytes));
    Ok(headers)
}

/// Puts the headers that a credential signs with over those of the request.
pub fn sign_headers(headers: &mut RequestHeaders, signature: &Vec<(String, String)>)
    requires
        old(headers).wf(),
    ensures
        final(headers).wf(),
        final(headers)@ == with_required(old(headers)@, signature@),
{
    let ghost base = headers@;
    let mut i: usize = 0;
    assert(signature@.take(0) == Seq::<(String, String)>::empty());
    while i < signature.len()
        invariant
            i <= signature.len(),
            headers.wf(),
            headers@ == with_required(base, signature@.take(i as int)),
        decreases signature.len() - i,
    {
        let (name, value) = &signature[i];
        headers.insert(lowercase(name.as_str()), value.clone());
        assert(signature@.take(i + 1).drop_last() == signature@.take(i as int));
        i += 1;
    }
    assert(signature@.take(i as int) == signature@);
}

/// Seals the headers of a signed attempt with the profile digest and the reason ledger, which no
/// connector and no credential can set.
pub fn seal_headers(
    headers: &mut RequestHeaders,
    profile_digest: &str,
    reason_ledger_identity: &Option<String>,
) -> (r: Result<(), String>)
    requires
        old(headers).wf(),
    ensures
        final(headers).wf(),
        match *reason_ledger_identity {
            Some(ledger) => if is_header_value(profile_digest@) && is_header_value(ledger@) {
                r is Ok && final(headers)@ == old(headers)@.insert(
                    "x-hiroute-profile-digest"@,
                    profile_digest@,
                ).insert("x-hiroute-reason-ledger-id"@, ledger@)
            } else {
                r matches Err(error) && error@ == "protocol_failed"@
            },
            None => r matches Err(error) && error@ == "protocol_failed"@,
        },
{
    if !valid_header_value(profile_digest) {
        return Err("protocol_failed".to_owned());
    }
    headers.insert("x-hiroute-profile-digest".to_owned(), profile_digest.to_owned());
    let ledger = match reason_ledger_identity {
        Some(ledger) => ledger,
        None => return Err("protocol_failed".to_owned()),
    };
    if !valid_header_value(ledger.as_str()) {
        return Err("protocol_failed".to_owned());
    }
    headers.insert("x-hiroute-reason-ledger-id".to_owned(), ledger.clone());
    Ok(())
}

/// The state of an attempt that is about to be sent.
pub fn new_attempt_state(
    profile: CandidateProtocolProfile,
    codecs: CodecPlan,
    chat_tool_projection: bool,
    prefix: BodyQueue,
    decoder_budget: PrecommitDecoderBudget,
) -> (r: ProductionAttemptState)
    ensures
        r@ == (AttemptView {
            profile,
            response_status: None,
            classified_failure: None,
            streaming: codecs.streaming,
            native_output: codecs.native_output,
            chat_tool_projection,
            decoder: false,
            renderer: codecs.needs_renderer,
            projector: false,
            prefix: Some(prefix@),
            prefix_terminal_chunks: None,
            decoder_budget: Some(decoder_budget@),
            semantic_seen: false,
            terminal_seen: false,
            semantic_terminal: None,
            retry_after: None,
        }),
        r.prefix == Some(prefix),
        r.decoder_budget == Some(decoder_budget),
{
    ProductionAttemptState {
        profile,
        response_status: None,
        classified_failure: None,
        streaming: codecs.streaming,
        native_output: codecs.native_output,
        chat_tool_projection,
        decoder: false,
        renderer: codecs.needs_renderer,
        projector: false,
        prefix: Some(prefix),
        prefix_terminal_chunks: None,
        decoder_budget: Some(decoder_budget),
        semantic_seen: false,
        terminal_seen: false,
        semantic_terminal: None,
        retry_after: None,
    }
}

#[derive(Clone, Copy, Debug, PartialEq, Eq, Structural)]
pub enum AttemptTimeoutKind {
    Connect,
    FirstByte,
    StreamIdle,
    Other,
}

/// What a mechanical failure was: nothing for one that never touched the wire.
pub open spec fn mechanical_raw(
    class: CoreAttemptFailureClass,
    timeout: Option<AttemptTimeoutKind>,
) -> Option<RawAttemptFailure> {
    match class {
        CoreAttemptFailureClass::Connect => Some(
            if timeout == Some(AttemptTimeoutKind::Connect) {
                RawAttemptFailure::Timeout { phase: AttemptTimeoutPhase::Connect }
            } else {
                RawAttemptFailure::Connect
            },
        ),
        CoreAttemptFailureClass::RequestWrite => Some(
            RawAttemptFailure::Timeout { phase: AttemptTimeoutPhase::RequestWrite },
        ),
        CoreAttemptFailureClass::FirstByte => Some(
            RawAttemptFailure::Timeout { phase: AttemptTimeoutPhase::FirstByte },
        ),
        CoreAttemptFailureClass::StreamIdle => Some(
            RawAttemptFailure::Timeout { phase: AttemptTimeoutPhase::StreamIdle },
        ),
        CoreAttemptFailureClass::AttemptDeadline => Some(
            RawAttemptFailure::Timeout { phase: AttemptTimeoutPhase::Overall },
        ),
        CoreAttemptFailureClass::Transport => Some(RawAttemptFailure::Disconnect),
        CoreAttemptFailureClass::Credential
        | CoreAttemptFailureClass::Dns
        | CoreAttemptFailureClass::Materialization
        | CoreAttemptFailureClass::AttemptRequestFilter => None,
    }
}

pub fn mechanical_failure(
    class: CoreAttemptFailureClass,
    timeout: Option<AttemptTimeoutKind>,
) -> (r: Option<RawAttemptFailure>)
    ensures
        r == mechanical_raw(class, timeout),
{
    match class {
        CoreAttemptFailureClass::Connect => {
            let timed_out = match timeout {
                Some(AttemptTimeoutKind::Connect) => true,
                _ => false,
            };
            Some(
                if timed_out {
                    RawAttemptFailure::Timeout { phase: AttemptTimeoutPhase::Connect }
                } else {
                    RawAttemptFailure::Connect
                },
            )
        },
        CoreAttemptFailureClass::RequestWrite => Some(
            RawAttemptFailure::Timeout { phase: AttemptTimeoutPhase::RequestWrite },
        ),
        CoreAttemptFailureClass::FirstByte => Some(
            RawAttemptFailure::Timeout { phase: AttemptTimeoutPhase::FirstByte },
        ),
        CoreAttemptFailureClass::StreamIdle => Some(
            RawAttemptFailure::Timeout { phase: AttemptTimeoutPhase::StreamIdle },
        ),
        CoreAttemptFailureClass::AttemptDeadline => Some(
            RawAttemptFailure::Timeout { phase: AttemptTimeoutPhase::Overall },
        ),
        CoreAttemptFailureClass::Transport => Some(RawAttemptFailure::Disconnect),
        CoreAttemptFailureClass::Credential
        | CoreAttemptFailureClass::Dns
        | CoreAttemptFailureClass::Materialization
        | CoreAttemptFailureClass::AttemptRequestFilter => None,
    }
}

/// The failure of a mechanical signal for the outcome classifier, or nothing where the runtime
/// state has nothing to learn from it.
pub fn mechanical_failure_to_classify(
    profile: &CandidateProtocolProfile,
    class: CoreAttemptFailureClass,
    timeout: Option<AttemptTimeoutKind>,
) -> (r: Result<Option<(RawAttemptFailure, ConnectorErrorProfile)>, String>)
    ensures
        match mechanical_raw(class, timeout) {
            None => r == Ok::<Option<(RawAttemptFailure, ConnectorErrorProfile)>, String>(None),
            Some(raw) => match profile.error_profile() {
                Some(errors) => r == Ok::<
                    Option<(RawAttemptFailure, ConnectorErrorProfile)>,
                    String,
                >(Some((raw, errors))),
                None => r matches Err(error) && error@ == "protocol_failed"@,
            },
        },
{
    match mechanical_failure(class, timeout) {
        None => Ok(None),
        Some(raw) => match connector_error_profile(profile) {
            Ok(errors) => Ok(Some((raw, errors))),
            Err(error) => Err(error),
        },
    }
}

/// Tells the request that its runtime state has failed it, so that a still uncommitted generic
/// failure can be replaced. It is never shared between requests.
#[derive(Clone, Copy, Debug, PartialEq, Eq, Structural)]
pub struct RuntimeStateAuthoritySignal {
    pub failed: bool,
}

impl Default for RuntimeStateAuthoritySignal {
    fn default() -> (r: Self)
        ensures
            !r.failed,
    {
        RuntimeStateAuthoritySignal { failed: false }
    }
}

impl RuntimeStateAuthoritySignal {
    /// Marks the failure and gives its error text.
    pub fn fail(&mut self) -> (r: String)
        ensures
            final(self).failed,
            r@ == "runtime_state_authority_failed"@,
    {
        self.failed = true;
        "runtime_state_authority_failed".to_owned()
    }
}

/// The write that a classified mechanical failure calls for. Where none can be made, the signal
/// is marked.
pub fn mechanical_failure_write(
    permits: AttemptStatePermits,
    failure: &AttemptFailure,
    policy: &RuntimeCooldownPolicy,
    now: u128,
    signal: &mut RuntimeStateAuthoritySignal,
) -> (r: Result<Option<StateWrite>, String>)
    ensures
        match failure_write(permits, *failure, *policy, now) {
            Ok(write) => {
                &&& r == Ok::<Option<StateWrite>, String>(write)
                &&& *final(signal) == *old(signal)
            },
            Err(_) => {
                &&& r matches Err(error) && error@ == "runtime_state_authority_failed"@
                &&& final(signal).failed
            },
        },
{
    match record_failure_at(permits, failure, policy, now) {
        Ok(write) => Ok(write),
        Err(_) => Err(signal.fail()),
    }
}

} // verus!
