//! The walk of an attempt from its frozen candidate to a request that can be sent.
//!
//! The walk alternates decisions with outside work. What came back of the work is kept as answers;
//! [`next_step`] says from them what is to be done next, or that the attempt has failed, or that
//! its request is ready. Nothing is asked for before everything that it rests on was answered well.

use vstd::prelude::*;
use super::facts::{text_view, IngressProtocol};
use super::materialization::{
    candidate_at, check_execution, choose_target, copied_target, credential_key,
    credential_state_key, execution_is_sealed, find_candidate, finish_lookup, is_header_value,
    lease_endpoint, lease_logical_endpoint, lease_target_for_request, looked_up, lookup_of,
    needs_credential, override_is_allowed, permit_or_materialization_error, plan_codecs,
    projection_reservation, redirected, request_headers, required_are_valid, seal_headers,
    sign_headers, unavailable_text, unsigned_headers, with_required, ConnectorRuntimeKind,
    ExecutionEvidence, LeaseOutcome, LeaseTarget, NativeTarget, ProductionLogicalRequest,
    RequestHeaders, SealedCandidateExecution, TargetStep, TargetView, TransportAddress,
    TransportOverride, TransportTarget,
};
use super::profile::AuthenticationSemantics;
use super::selection::ResolvedTargetBindingId;
use super::state::{
    AttemptStatePermits, PermitAvailability, RuntimeStateKey, StateKeyView, StatePermit,
};
use crate::text::{after_prefix, views_of};
use crate::uri::read_authority;

verus! {

/// What an attempt is made for.
pub struct AttemptContext<'a> {
    /// The attempt still has time and was not cancelled.
    pub is_active: bool,
    pub logical: &'a ProductionLogicalRequest,
    pub binding: ResolvedTargetBindingId,
    pub stable_target: &'a str,
    pub credential_ref: &'a str,
    /// The schema of sealed executions.
    pub schema: &'a str,
    pub target: &'a TransportTarget,
    /// What is written at once, and the largest chunk of the plan's request body.
    pub write_quantum: usize,
    pub max_chunk_bytes: usize,
}

/// A sealed execution that was read, and what was computed anew over it.
#[derive(Debug)]
pub struct SealedAnswer {
    pub execution: SealedCandidateExecution,
    pub evidence: ExecutionEvidence,
    pub native_target: Option<NativeTarget>,
}

/// A projected request: its path, its length, and what its tool projection retains, where it has
/// one.
#[derive(Debug)]
pub struct TemplateAnswer {
    pub path: String,
    pub wire_bytes: u64,
    pub retained: Option<Option<usize>>,
}

/// An identified lease target. The URI is read of an execution's target for the request path.
#[derive(Debug)]
pub struct LeaseTargetFacts {
    pub uri: String,
    pub digest: String,
}

/// What came back of the outside work so far.
#[derive(Debug)]
pub struct AttemptAnswers {
    pub sealed: Option<Option<SealedAnswer>>,
    pub template: Option<Option<TemplateAnswer>>,
    /// The client's profile, and the renderer where one is needed, could be made.
    pub codecs: Option<bool>,
    pub buffers: Option<Result<(), String>>,
    pub binding_permit: Option<Result<PermitAvailability, ()>>,
    pub lease_target: Option<Option<LeaseTargetFacts>>,
    pub lease: Option<LeaseOutcome>,
    pub credential_permit: Option<Result<PermitAvailability, ()>>,
    /// The address that a bridge redirects to makes a valid target.
    pub override_is_valid: Option<bool>,
    pub looked_up: Option<Option<Vec<TransportAddress>>>,
    pub permits_are_valid: Option<bool>,
    pub reserved: Option<Result<(), String>>,
    pub body: Option<Result<(), String>>,
    /// The headers that the credential signs with.
    pub signed: Option<Option<Vec<(String, String)>>>,
}

/// What is asked of the credential authority. No key is excluded.
#[derive(Debug)]
pub struct CredentialLeaseRequest {
    pub stable_binding_id: String,
    pub credential_ref: String,
    pub credential_destination_ref: String,
    pub excluded_key_ids: Vec<String>,
    pub connector_runtime: ConnectorRuntimeKind,
    pub connector_id: String,
    pub upstream_protocol: IngressProtocol,
    pub upstream_model_id: String,
    pub native_transport_model: String,
    pub logical_endpoint: String,
    pub operational_target: String,
    pub operational_target_digest: String,
    pub runtime_epoch: Option<u64>,
    pub target_epoch: Option<u64>,
    pub protocol_profile_digest: String,
    pub request_path: String,
    pub authentication: Option<AuthenticationSemantics>,
}

pub struct LeaseRequestView {
    pub stable_binding_id: Seq<char>,
    pub credential_ref: Seq<char>,
    pub credential_destination_ref: Seq<char>,
    pub excluded_key_ids: Seq<Seq<char>>,
    pub connector_runtime: ConnectorRuntimeKind,
    pub connector_id: Seq<char>,
    pub upstream_protocol: IngressProtocol,
    pub upstream_model_id: Seq<char>,
    pub native_transport_model: Seq<char>,
    pub logical_endpoint: Seq<char>,
    pub operational_target: Seq<char>,
    pub operational_target_digest: Seq<char>,
    pub runtime_epoch: Option<u64>,
    pub target_epoch: Option<u64>,
    pub protocol_profile_digest: Seq<char>,
    pub request_path: Seq<char>,
    pub authentication: Option<AuthenticationSemantics>,
}

impl View for CredentialLeaseRequest {
    type V = LeaseRequestView;

    open spec fn view(&self) -> LeaseRequestView {
        LeaseRequestView {
            stable_binding_id: self.stable_binding_id@,
            credential_ref: self.credential_ref@,
            credential_destination_ref: self.credential_destination_ref@,
            excluded_key_ids: views_of(self.excluded_key_ids@),
            connector_runtime: self.connector_runtime,
            connector_id: self.connector_id@,
            upstream_protocol: self.upstream_protocol,
            upstream_model_id: self.upstream_model_id@,
            native_transport_model: self.native_transport_model@,
            logical_endpoint: self.logical_endpoint@,
            operational_target: self.operational_target@,
            operational_target_digest: self.operational_target_digest@,
            runtime_epoch: self.runtime_epoch,
            target_epoch: self.target_epoch,
            protocol_profile_digest: self.protocol_profile_digest@,
            request_path: self.request_path@,
            authentication: self.authentication,
        }
    }
}

/// A request that can be sent: its path, its headers and where it goes.
#[derive(Debug)]
pub struct PreparedRequest {
    pub path: String,
    pub headers: RequestHeaders,
    pub target: TransportTarget,
}

pub struct PreparedView {
    pub path: Seq<char>,
    pub headers: Map<Seq<char>, Seq<char>>,
    pub target: TargetView,
}

impl View for PreparedRequest {
    type V = PreparedView;

    open spec fn view(&self) -> PreparedView {
        PreparedView {
            path: self.path@,
            headers: self.headers@,
            target: self.target@,
        }
    }
}

/// What is to be done next.
#[derive(Debug)]
pub enum MaterializationStep {
    ReadExecution { candidate: usize },
    ProjectTemplate,
    OpenCodecs { needs_renderer: bool },
    ReserveBuffers,
    AcquireBindingPermit(RuntimeStateKey),
    IdentifyLeaseTarget(LeaseTarget),
    LeaseCredential(CredentialLeaseRequest),
    AcquireCredentialPermit(RuntimeStateKey),
    CheckOverride(TransportTarget),
    LookUp { host: String, port: u16 },
    ValidatePermits(AttemptStatePermits),
    ReserveProjection(usize),
    OpenBody { quantum: usize },
    Sign(RequestHeaders),
    Ready(PreparedRequest),
    /// The attempt failed; `marks` tells that the runtime state failed it.
    Fail { error: String, marks: bool },
}

pub enum StepView {
    ReadExecution { candidate: int },
    ProjectTemplate,
    OpenCodecs { needs_renderer: bool },
    ReserveBuffers,
    AcquireBindingPermit(StateKeyView),
    IdentifyLeaseTarget(LeaseTarget),
    LeaseCredential(LeaseRequestView),
    AcquireCredentialPermit(StateKeyView),
    CheckOverride(TargetView),
    LookUp { host: Seq<char>, port: u16 },
    ValidatePermits(AttemptStatePermits),
    ReserveProjection(usize),
    OpenBody { quantum: usize },
    Sign(Map<Seq<char>, Seq<char>>),
    Ready(PreparedView),
    Fail { error: Seq<char>, marks: bool },
}

impl View for MaterializationStep {
    type V = StepView;

    open spec fn view(&self) -> StepView {
        match *self {
            MaterializationStep::ReadExecution { candidate } => {
                StepView::ReadExecution { candidate: candidate as int }
            },
            MaterializationStep::ProjectTemplate => StepView::ProjectTemplate,
            MaterializationStep::OpenCodecs { needs_renderer } => {
                StepView::OpenCodecs { needs_renderer }
            },
            MaterializationStep::ReserveBuffers => StepView::ReserveBuffers,
            MaterializationStep::AcquireBindingPermit(key) => {
                StepView::AcquireBindingPermit(key@)
            },
            MaterializationStep::IdentifyLeaseTarget(target) => {
                StepView::IdentifyLeaseTarget(target)
            },
            MaterializationStep::LeaseCredential(request) => StepView::LeaseCredential(request@),
            MaterializationStep::AcquireCredentialPermit(key) => {
                StepView::AcquireCredentialPermit(key@)
            },
            MaterializationStep::CheckOverride(target) => StepView::CheckOverride(target@),
            MaterializationStep::LookUp { host, port } => StepView::LookUp { host: host@, port },
            MaterializationStep::ValidatePermits(permits) => StepView::ValidatePermits(permits),
            MaterializationStep::ReserveProjection(bytes) => StepView::ReserveProjection(bytes),
            MaterializationStep::OpenBody { quantum } => StepView::OpenBody { quantum },
            MaterializationStep::Sign(headers) => StepView::Sign(headers@),
            MaterializationStep::Ready(request) => StepView::Ready(request@),
            MaterializationStep::Fail { error, marks } => StepView::Fail { error: error@, marks },
        }
    }
}

pub open spec fn step_view(step: Option<MaterializationStep>) -> Option<StepView> {
    match step {
        Some(step) => Some(step@),
        None => None,
    }
}

pub open spec fn failed(error: Seq<char>) -> Option<StepView> {
    Some(StepView::Fail { error, marks: false })
}

pub open spec fn failed_by_state() -> Option<StepView> {
    Some(StepView::Fail { error: "runtime_state_authority_failed"@, marks: true })
}

fn fail(error: String) -> (r: Option<MaterializationStep>)
    ensures
        step_view(r) == failed(error@),
{
    Some(MaterializationStep::Fail { error, marks: false })
}

fn fail_with(error: &str) -> (r: Option<MaterializationStep>)
    ensures
        step_view(r) == failed(error@),
{
    fail(error.to_owned())
}

fn fail_by_state() -> (r: Option<MaterializationStep>)
    ensures
        step_view(r) == failed_by_state(),
{
    Some(
        MaterializationStep::Fail {
            error: "runtime_state_authority_failed".to_owned(),
            marks: true,
        },
    )
}

/// Where the walk stops before the sealed execution of the candidate holds.
pub open spec fn sealed_stop(context: AttemptContext, answers: AttemptAnswers) -> Option<StepView> {
    let candidates = context.logical.frozen_candidates@;
    if !context.is_active {
        failed("authority_failed"@)
    } else {
        match candidate_at(candidates, context.binding) {
            None => failed("protocol_failed"@),
            Some(i) => if candidates[i].stable_target@ != context.stable_target@
                || candidates[i].provider_profile is None {
                failed("protocol_failed"@)
            } else {
                match answers.sealed {
                    None => Some(StepView::ReadExecution { candidate: i }),
                    Some(None) => failed("protocol_failed"@),
                    Some(Some(sealed)) => match candidates[i].profile_digest {
                        None => failed("protocol_failed"@),
                        Some(digest) => if execution_is_sealed(
                            sealed.execution,
                            sealed.evidence,
                            context.schema@,
                            context.stable_target@,
                            digest@,
                            context.logical.ingress,
                            *context.target,
                        ) {
                            None
                        } else {
                            failed("protocol_failed"@)
                        },
                    },
                }
            },
        }
    }
}

fn stop_at_sealed(context: &AttemptContext, answers: &AttemptAnswers) -> (r: Option<
    MaterializationStep,
>)
    ensures
        step_view(r) == sealed_stop(*context, *answers),
{
    if !context.is_active {
        return fail_with("authority_failed");
    }
    let at = match find_candidate(context.logical, context.binding, context.stable_target) {
        Ok(at) => at,
        Err(error) => {
            return fail(error);
        },
    };
    let candidate = &context.logical.frozen_candidates[at];
    if candidate.provider_profile.is_none() {
        return fail_with("protocol_failed");
    }
    let sealed = match &answers.sealed {
        None => {
            return Some(MaterializationStep::ReadExecution { candidate: at });
        },
        Some(None) => {
            return fail_with("protocol_failed");
        },
        Some(Some(sealed)) => sealed,
    };
    match &candidate.profile_digest {
        None => fail_with("protocol_failed"),
        Some(digest) => match check_execution(
            &sealed.execution,
            &sealed.evidence,
            context.schema,
            context.stable_target,
            digest.as_str(),
            context.logical.ingress,
            context.target,
        ) {
            Ok(()) => None,
            Err(error) => fail(error),
        },
    }
}

/// Where the walk stops before the attempt has its codecs, its buffers and the permit of its
/// binding.
pub open spec fn permit_stop(
    context: AttemptContext,
    answers: AttemptAnswers,
    sealed: SealedAnswer,
    now: u128,
) -> Option<StepView> {
    let profile = sealed.execution.protocol_profile;
    match context.logical.ir {
        None => failed("protocol_failed"@),
        Some(ir) => match answers.template {
            None => Some(StepView::ProjectTemplate),
            Some(None) => failed("protocol_failed"@),
            Some(Some(_)) => match answers.codecs {
                None => Some(
                    StepView::OpenCodecs {
                        needs_renderer: ir.stream && profile.ingress_protocol
                            != profile.capability.upstream_protocol,
                    },
                ),
                Some(false) => failed("protocol_failed"@),
                Some(true) => match answers.buffers {
                    None => Some(StepView::ReserveBuffers),
                    Some(Err(error)) => failed(error@),
                    Some(Ok(_)) => match answers.binding_permit {
                        None => Some(
                            StepView::AcquireBindingPermit(
                                StateKeyView::Binding { stable_target: context.stable_target@ },
                            ),
                        ),
                        Some(Err(_)) => failed_by_state(),
                        Some(Ok(PermitAvailability::Permit(_))) => None,
                        Some(Ok(other)) => failed(unavailable_text(other, true, now)),
                    },
                },
            },
        },
    }
}

fn stop_at_permit(
    context: &AttemptContext,
    answers: &AttemptAnswers,
    sealed: &SealedAnswer,
    now: u128,
) -> (r: Option<MaterializationStep>)
    ensures
        step_view(r) == permit_stop(*context, *answers, *sealed, now),
{
    let plan = match plan_codecs(&context.logical.ir, &sealed.execution.protocol_profile) {
        Ok(plan) => plan,
        Err(error) => {
            return fail(error);
        },
    };
    match &answers.template {
        None => {
            return Some(MaterializationStep::ProjectTemplate);
        },
        Some(None) => {
            return fail_with("protocol_failed");
        },
        Some(Some(_)) => {},
    }
    match answers.codecs {
        None => {
            return Some(
                MaterializationStep::OpenCodecs { needs_renderer: plan.needs_renderer },
            );
        },
        Some(false) => {
            return fail_with("protocol_failed");
        },
        Some(true) => {},
    }
    match &answers.buffers {
        None => {
            return Some(MaterializationStep::ReserveBuffers);
        },
        Some(Err(error)) => {
            return fail(error.clone());
        },
        Some(Ok(_)) => {},
    }
    match answers.binding_permit {
        None => Some(
            MaterializationStep::AcquireBindingPermit(
                RuntimeStateKey::Binding { stable_target: context.stable_target.to_owned() },
            ),
        ),
        Some(Err(_)) => fail_by_state(),
        Some(Ok(availability)) => match permit_or_materialization_error(availability, true, now) {
            Ok(_) => None,
            Err(error) => fail(error),
        },
    }
}

/// Whether the attempt needs a credential, where its reference fits its profile.
pub open spec fn credential_need(sealed: SealedAnswer, credential_ref: Seq<char>) -> Option<bool> {
    match sealed.execution.protocol_profile.connector.authentication {
        Some(authentication) => if (authentication is Anonymous) == (after_prefix(
            credential_ref,
            "credential/none/"@,
        ) is Some) {
            Some(!(authentication is Anonymous))
        } else {
            None
        },
        None => None,
    }
}

/// The target of the attempt's lease, where it has one.
pub open spec fn lease_target_of(sealed: SealedAnswer) -> Option<LeaseTarget> {
    match sealed.execution.connector_runtime {
        ConnectorRuntimeKind::CpaBridge => Some(LeaseTarget::Execution),
        ConnectorRuntimeKind::BuiltinNative => match sealed.native_target {
            Some(target) => if target.valid {
                Some(LeaseTarget::Profile)
            } else {
                None
            },
            None => if sealed.evidence.target_serves_path {
                Some(LeaseTarget::ExecutionForPath)
            } else {
                None
            },
        },
    }
}

/// The URI of a lease's target.
pub open spec fn lease_uri(
    sealed: SealedAnswer,
    target: LeaseTarget,
    facts: LeaseTargetFacts,
) -> Seq<char> {
    match target {
        LeaseTarget::Profile => sealed.native_target->0.operational_target.uri@,
        LeaseTarget::ExecutionForPath => facts.uri@,
        LeaseTarget::Execution => sealed.execution.operational_target.uri@,
    }
}

/// What is asked of the credential authority: the credential of the attempt, for exactly what was
/// sealed.
pub open spec fn lease_request(
    context: AttemptContext,
    sealed: SealedAnswer,
    target: LeaseTarget,
    facts: LeaseTargetFacts,
) -> LeaseRequestView {
    let execution = sealed.execution;
    let profile = execution.protocol_profile;
    LeaseRequestView {
        stable_binding_id: context.stable_target@,
        credential_ref: context.credential_ref@,
        credential_destination_ref: execution.credential_destination_ref@,
        excluded_key_ids: Seq::empty(),
        connector_runtime: execution.connector_runtime,
        connector_id: profile.connector.connector_id@,
        upstream_protocol: profile.capability.upstream_protocol,
        upstream_model_id: execution.upstream_model_id@,
        native_transport_model: execution.native_transport_model@,
        logical_endpoint: lease_endpoint(execution, lease_uri(sealed, target, facts)),
        operational_target: lease_uri(sealed, target, facts),
        operational_target_digest: facts.digest@,
        runtime_epoch: execution.operational_target.runtime_epoch,
        target_epoch: execution.operational_target.target_epoch,
        protocol_profile_digest: execution.profile_digest@,
        request_path: profile.connector.request_path@,
        authentication: profile.connector.authentication,
    }
}

fn make_lease_request(
    context: &AttemptContext,
    sealed: &SealedAnswer,
    target: LeaseTarget,
    facts: &LeaseTargetFacts,
) -> (r: CredentialLeaseRequest)
    requires
        target is Profile ==> sealed.native_target is Some,
    ensures
        r@ == lease_request(*context, *sealed, target, *facts),
{
    let execution = &sealed.execution;
    let profile = &execution.protocol_profile;
    let uri = match target {
        LeaseTarget::Profile => match &sealed.native_target {
            Some(native) => native.operational_target.uri.as_str(),
            None => facts.uri.as_str(),
        },
        LeaseTarget::ExecutionForPath => facts.uri.as_str(),
        LeaseTarget::Execution => execution.operational_target.uri.as_str(),
    };
    let excluded_key_ids: Vec<String> = Vec::new();
    assert(views_of(excluded_key_ids@) =~= Seq::<Seq<char>>::empty());
    CredentialLeaseRequest {
        stable_binding_id: context.stable_target.to_owned(),
        credential_ref: context.credential_ref.to_owned(),
        credential_destination_ref: execution.credential_destination_ref.clone(),
        excluded_key_ids,
        connector_runtime: execution.connector_runtime,
        connector_id: profile.connector.connector_id.clone(),
        upstream_protocol: profile.capability.upstream_protocol,
        upstream_model_id: execution.upstream_model_id.clone(),
        native_transport_model: execution.native_transport_model.clone(),
        logical_endpoint: lease_logical_endpoint(execution, uri),
        operational_target: uri.to_owned(),
        operational_target_digest: facts.digest.clone(),
        runtime_epoch: execution.operational_target.runtime_epoch,
        target_epoch: execution.operational_target.target_epoch,
        protocol_profile_digest: execution.profile_digest.clone(),
        request_path: profile.connector.request_path.clone(),
        authentication: profile.connector.authentication,
    }
}

/// Where the walk stops before the attempt has its credential and that credential's permit.
pub open spec fn credential_stop(
    context: AttemptContext,
    answers: AttemptAnswers,
    sealed: SealedAnswer,
    now: u128,
) -> Option<StepView> {
    match (credential_need(sealed, context.credential_ref@), lease_target_of(sealed)) {
        (None, _) => failed("protocol_failed"@),
        (Some(_), None) => failed("protocol_failed"@),
        (Some(needed), Some(target)) => match answers.lease_target {
            None => Some(StepView::IdentifyLeaseTarget(target)),
            Some(None) => failed("protocol_failed"@),
            Some(Some(facts)) => if !needed {
                None
            } else {
                match answers.lease {
                    None => Some(
                        StepView::LeaseCredential(lease_request(context, sealed, target, facts)),
                    ),
                    Some(LeaseOutcome::Failed) => failed("authority_failed"@),
                    Some(LeaseOutcome::Exhausted) => failed("credential_exhausted"@),
                    Some(LeaseOutcome::Leased(lease)) => if lease.credential_ref@
                        != context.credential_ref@ {
                        failed("authority_failed"@)
                    } else {
                        match answers.credential_permit {
                            None => Some(
                                StepView::AcquireCredentialPermit(
                                    credential_key(context.stable_target@, lease),
                                ),
                            ),
                            Some(Err(_)) => failed_by_state(),
                            Some(Ok(PermitAvailability::Permit(_))) => None,
                            Some(Ok(other)) => failed(unavailable_text(other, false, now)),
                        }
                    },
                }
            },
        },
    }
}

fn stop_at_credential(
    context: &AttemptContext,
    answers: &AttemptAnswers,
    sealed: &SealedAnswer,
    now: u128,
) -> (r: Option<MaterializationStep>)
    ensures
        step_view(r) == credential_stop(*context, *answers, *sealed, now),
{
    let needed = match needs_credential(
        &sealed.execution.protocol_profile,
        context.credential_ref,
    ) {
        Ok(needed) => needed,
        Err(error) => {
            return fail(error);
        },
    };
    let target = match lease_target_for_request(
        &sealed.execution,
        &sealed.native_target,
        sealed.evidence.target_serves_path,
    ) {
        Ok(target) => target,
        Err(error) => {
            return fail(error);
        },
    };
    let facts = match &answers.lease_target {
        None => {
            return Some(MaterializationStep::IdentifyLeaseTarget(target));
        },
        Some(None) => {
            return fail_with("protocol_failed");
        },
        Some(Some(facts)) => facts,
    };
    if !needed {
        return None;
    }
    let key = match &answers.lease {
        None => {
            return Some(
                MaterializationStep::LeaseCredential(
                    make_lease_request(context, sealed, target, facts),
                ),
            );
        },
        Some(lease) => match credential_state_key(
            context.stable_target,
            context.credential_ref,
            lease,
        ) {
            Ok(key) => key,
            Err(error) => {
                return fail(error);
            },
        },
    };
    match answers.credential_permit {
        None => Some(MaterializationStep::AcquireCredentialPermit(key)),
        Some(Err(_)) => fail_by_state(),
        Some(Ok(availability)) => match permit_or_materialization_error(availability, false, now) {
            Ok(_) => None,
            Err(error) => fail(error),
        },
    }
}

/// The address that the leased credential redirects to, in an attempt that leases one.
pub open spec fn redirect_of(
    context: AttemptContext,
    answers: AttemptAnswers,
    sealed: SealedAnswer,
) -> Option<TransportOverride> {
    if credential_need(sealed, context.credential_ref@) == Some(true) {
        match answers.lease {
            Some(LeaseOutcome::Leased(lease)) => lease.transport_override,
            _ => None,
        }
    } else {
        None
    }
}

/// Where the walk stops before the attempt knows where to go.
pub open spec fn target_stop(
    context: AttemptContext,
    answers: AttemptAnswers,
    sealed: SealedAnswer,
) -> Option<StepView> {
    match redirect_of(context, answers, sealed) {
        Some(target) => if !override_is_allowed(sealed.execution, target) {
            failed("authority_failed"@)
        } else {
            match answers.override_is_valid {
                None => Some(StepView::CheckOverride(redirected(context.target@, target))),
                Some(false) => failed("authority_failed"@),
                Some(true) => None,
            }
        },
        None => if sealed.execution.connector_runtime is CpaBridge {
            failed("authority_failed"@)
        } else {
            match context.target.unresolved_authority {
                None => None,
                Some(authority) => match lookup_of(
                    read_authority(authority@),
                    context.target.scheme,
                ) {
                    None => failed("dns_failed"@),
                    Some((host, port)) => match answers.looked_up {
                        None => Some(StepView::LookUp { host, port }),
                        Some(None) => failed("dns_failed"@),
                        Some(Some(found)) => if found@.len() == 0 {
                            failed("dns_failed"@)
                        } else {
                            None
                        },
                    },
                },
            }
        },
    }
}

fn redirect<'a>(context: &AttemptContext, answers: &'a AttemptAnswers, sealed: &SealedAnswer) -> (r:
    Option<&'a TransportOverride>)
    requires
        credential_need(*sealed, context.credential_ref@) is Some,
    ensures
        match r {
            Some(target) => redirect_of(*context, *answers, *sealed) == Some(*target),
            None => redirect_of(*context, *answers, *sealed) is None,
        },
{
    let needed = match needs_credential(
        &sealed.execution.protocol_profile,
        context.credential_ref,
    ) {
        Ok(needed) => needed,
        Err(_) => false,
    };
    if !needed {
        return None;
    }
    match &answers.lease {
        Some(LeaseOutcome::Leased(lease)) => match &lease.transport_override {
            Some(target) => Some(target),
            None => None,
        },
        _ => None,
    }
}

fn stop_at_target(context: &AttemptContext, answers: &AttemptAnswers, sealed: &SealedAnswer) -> (r:
    Option<MaterializationStep>)
    requires
        credential_need(*sealed, context.credential_ref@) is Some,
    ensures
        step_view(r) == target_stop(*context, *answers, *sealed),
{
    match choose_target(&sealed.execution, context.target, redirect(context, answers, sealed)) {
        Err(error) => fail(error),
        Ok(TargetStep::Use(target)) => match answers.override_is_valid {
            None => Some(MaterializationStep::CheckOverride(target)),
            Some(false) => fail_with("authority_failed"),
            Some(true) => None,
        },
        Ok(TargetStep::Keep) => None,
        Ok(TargetStep::LookUp { host, port }) => match &answers.looked_up {
            None => Some(MaterializationStep::LookUp { host, port }),
            Some(None) => fail_with("dns_failed"),
            Some(Some(found)) => if found.len() == 0 {
                fail_with("dns_failed")
            } else {
                None
            },
        },
    }
}

/// Where the request goes: to the address that a bridge redirects to, to the addresses that were
/// found, or where the plan says.
pub open spec fn resolved_of(
    context: AttemptContext,
    answers: AttemptAnswers,
    sealed: SealedAnswer,
) -> TargetView {
    match redirect_of(context, answers, sealed) {
        Some(target) => redirected(context.target@, target),
        None => match context.target.unresolved_authority {
            None => context.target@,
            Some(_) => looked_up(context.target@, answers.looked_up->0->0@),
        },
    }
}

fn resolved(context: &AttemptContext, answers: &AttemptAnswers, sealed: &SealedAnswer) -> (r:
    TransportTarget)
    requires
        credential_need(*sealed, context.credential_ref@) is Some,
        target_stop(*context, *answers, *sealed) is None,
    ensures
        r@ == resolved_of(*context, *answers, *sealed),
{
    match choose_target(&sealed.execution, context.target, redirect(context, answers, sealed)) {
        Ok(TargetStep::Use(target)) => target,
        Ok(TargetStep::LookUp { .. }) => {
            let found = match &answers.looked_up {
                Some(Some(found)) => Some(found),
                _ => None,
            };
            match finish_lookup(context.target, found) {
                Ok(target) => target,
                Err(_) => copied_target(context.target),
            }
        },
        _ => copied_target(context.target),
    }
}

/// The permits that an attempt holds.
pub open spec fn permits_of(
    context: AttemptContext,
    answers: AttemptAnswers,
    sealed: SealedAnswer,
) -> AttemptStatePermits {
    AttemptStatePermits {
        binding: permit_in(answers.binding_permit),
        credential: if credential_need(sealed, context.credential_ref@) == Some(true) {
            Some(permit_in(answers.credential_permit))
        } else {
            None
        },
    }
}

/// The permit that an answer holds.
pub open spec fn permit_in(answer: Option<Result<PermitAvailability, ()>>) -> StatePermit {
    answer->0->Ok_0->Permit_0
}

fn held(answer: Option<Result<PermitAvailability, ()>>) -> (r: StatePermit)
    requires
        is_permit(answer),
    ensures
        r == permit_in(answer),
{
    match answer {
        Some(Ok(PermitAvailability::Permit(permit))) => permit,
        _ => StatePermit { generation: 0, probe: false, transient_backoff_step: 0 },
    }
}

/// The authority of the request: the address that a bridge redirects to, else the plan's.
pub open spec fn authority_of(
    context: AttemptContext,
    answers: AttemptAnswers,
    sealed: SealedAnswer,
) -> Seq<char> {
    match redirect_of(context, answers, sealed) {
        Some(target) => target.address_text@,
        None => context.target.authority@,
    }
}

/// Whether the headers of the request can be made.
pub open spec fn headers_are_valid(
    context: AttemptContext,
    answers: AttemptAnswers,
    sealed: SealedAnswer,
) -> bool {
    match sealed.execution.protocol_profile.connector.headers {
        Some(headers) => is_header_value(authority_of(context, answers, sealed))
            && is_header_value(headers.content_type@) && required_are_valid(
            headers.required_headers@,
        ),
        None => false,
    }
}

/// The headers of the request before it is signed.
pub open spec fn unsigned_of(
    context: AttemptContext,
    answers: AttemptAnswers,
    sealed: SealedAnswer,
) -> Map<Seq<char>, Seq<char>> {
    unsigned_headers(
        authority_of(context, answers, sealed),
        sealed.execution.protocol_profile.connector.headers->0,
        answers.template->0->0.wire_bytes,
    )
}

/// The request that can be sent, where its headers can be sealed: with the digest of its profile
/// and the identity of its ledger over everything that a connector or a credential set.
pub open spec fn prepared(
    context: AttemptContext,
    answers: AttemptAnswers,
    sealed: SealedAnswer,
    signed: Map<Seq<char>, Seq<char>>,
) -> Option<PreparedView> {
    let candidates = context.logical.frozen_candidates@;
    match candidate_at(candidates, context.binding) {
        Some(i) => match (candidates[i].profile_digest, candidates[i].reason_ledger_identity) {
            (Some(digest), Some(ledger)) => if is_header_value(digest@) && is_header_value(
                ledger@,
            ) {
                Some(
                    PreparedView {
                        path: answers.template->0->0.path@,
                        headers: signed.insert("x-hiroute-profile-digest"@, digest@).insert(
                            "x-hiroute-reason-ledger-id"@,
                            ledger@,
                        ),
                        target: resolved_of(context, answers, sealed),
                    },
                )
            } else {
                None
            },
            _ => None,
        },
        None => None,
    }
}

/// The last step: the request, or the failure to seal it.
pub open spec fn last_step(
    context: AttemptContext,
    answers: AttemptAnswers,
    sealed: SealedAnswer,
    signed: Map<Seq<char>, Seq<char>>,
) -> StepView {
    match prepared(context, answers, sealed, signed) {
        Some(request) => StepView::Ready(request),
        None => failed("protocol_failed"@)->0,
    }
}

/// Where the walk stops before the request is ready.
pub open spec fn request_stop(
    context: AttemptContext,
    answers: AttemptAnswers,
    sealed: SealedAnswer,
) -> StepView {
    let retained = answers.template->0->0.retained;
    let reserves = match retained {
        Some(Some(bytes)) => bytes != 0,
        _ => false,
    };
    let unsigned = unsigned_of(context, answers, sealed);
    match answers.permits_are_valid {
        None => StepView::ValidatePermits(permits_of(context, answers, sealed)),
        Some(false) => failed_by_state()->0,
        Some(true) => if retained == Some(None::<usize>) {
            failed("protocol_failed"@)->0
        } else if reserves && answers.reserved is None {
            StepView::ReserveProjection(retained->0->0)
        } else if reserves && answers.reserved->0 is Err {
            failed(answers.reserved->0->Err_0@)->0
        } else {
            match answers.body {
                None => StepView::OpenBody {
                    quantum: if context.write_quantum <= context.max_chunk_bytes {
                        context.write_quantum
                    } else {
                        context.max_chunk_bytes
                    },
                },
                Some(Err(error)) => failed(error@)->0,
                Some(Ok(_)) => if !headers_are_valid(context, answers, sealed) {
                    failed("protocol_failed"@)->0
                } else if credential_need(sealed, context.credential_ref@) != Some(true) {
                    last_step(context, answers, sealed, unsigned)
                } else {
                    match answers.signed {
                        None => StepView::Sign(unsigned),
                        Some(None) => failed("authority_failed"@)->0,
                        Some(Some(signature)) => last_step(
                            context,
                            answers,
                            sealed,
                            with_required(unsigned, signature@),
                        ),
                    }
                },
            }
        },
    }
}

fn failure(error: String) -> (r: MaterializationStep)
    ensures
        r@ == failed(error@)->0,
{
    MaterializationStep::Fail { error, marks: false }
}

fn make_headers(
    context: &AttemptContext,
    answers: &AttemptAnswers,
    sealed: &SealedAnswer,
    template: &TemplateAnswer,
) -> (r: Option<RequestHeaders>)
    requires
        credential_need(*sealed, context.credential_ref@) is Some,
        answers.template == Some(Some(*template)),
    ensures
        match r {
            Some(headers) => headers_are_valid(*context, *answers, *sealed) && headers.wf()
                && headers@ == unsigned_of(*context, *answers, *sealed),
            None => !headers_are_valid(*context, *answers, *sealed),
        },
{
    let authority = match redirect(context, answers, sealed) {
        Some(target) => target.address_text.as_str(),
        None => context.target.authority.as_str(),
    };
    match request_headers(
        authority,
        &sealed.execution.protocol_profile.connector.headers,
        template.wire_bytes,
    ) {
        Ok(headers) => Some(headers),
        Err(_) => None,
    }
}

fn finish_request(
    context: &AttemptContext,
    answers: &AttemptAnswers,
    sealed: &SealedAnswer,
    template: &TemplateAnswer,
    headers: RequestHeaders,
) -> (r: MaterializationStep)
    requires
        candidate_at(context.logical.frozen_candidates@, context.binding) matches Some(i)
            && context.logical.frozen_candidates@[i].stable_target@ == context.stable_target@,
        credential_need(*sealed, context.credential_ref@) is Some,
        target_stop(*context, *answers, *sealed) is None,
        answers.template == Some(Some(*template)),
        headers.wf(),
    ensures
        r@ == last_step(*context, *answers, *sealed, headers@),
{
    let mut headers = headers;
    let candidate = match find_candidate(context.logical, context.binding, context.stable_target) {
        Ok(at) => &context.logical.frozen_candidates[at],
        Err(error) => {
            return failure(error);
        },
    };
    let digest = match &candidate.profile_digest {
        Some(digest) => digest,
        None => {
            return failure("protocol_failed".to_owned());
        },
    };
    match seal_headers(&mut headers, digest.as_str(), &candidate.reason_ledger_identity) {
        Ok(()) => MaterializationStep::Ready(
            PreparedRequest {
                path: template.path.clone(),
                headers,
                target: resolved(context, answers, sealed),
            },
        ),
        Err(error) => failure(error),
    }
}

fn stop_at_request(context: &AttemptContext, answers: &AttemptAnswers, sealed: &SealedAnswer) -> (r:
    MaterializationStep)
    requires
        sealed_stop(*context, *answers) is None,
        credential_need(*sealed, context.credential_ref@) is Some,
        target_stop(*context, *answers, *sealed) is None,
        answers.template matches Some(Some(_)),
        is_permit(answers.binding_permit),
        credential_need(*sealed, context.credential_ref@) == Some(true) ==> is_permit(
            answers.credential_permit,
        ),
    ensures
        r@ == request_stop(*context, *answers, *sealed),
{
    let needed = match needs_credential(
        &sealed.execution.protocol_profile,
        context.credential_ref,
    ) {
        Ok(needed) => needed,
        Err(_) => false,
    };
    match answers.permits_are_valid {
        None => {
            return MaterializationStep::ValidatePermits(
                AttemptStatePermits {
                    binding: held(answers.binding_permit),
                    credential: if needed {
                        Some(held(answers.credential_permit))
                    } else {
                        None
                    },
                },
            );
        },
        Some(false) => {
            return MaterializationStep::Fail {
                error: "runtime_state_authority_failed".to_owned(),
                marks: true,
            };
        },
        Some(true) => {},
    }
    let template = match &answers.template {
        Some(Some(template)) => template,
        _ => {
            return failure("protocol_failed".to_owned());
        },
    };
    match projection_reservation(template.retained) {
        Err(error) => {
            return failure(error);
        },
        Ok(None) => {},
        Ok(Some(bytes)) => match &answers.reserved {
            None => {
                return MaterializationStep::ReserveProjection(bytes);
            },
            Some(Err(error)) => {
                return failure(error.clone());
            },
            Some(Ok(_)) => {},
        },
    }
    match &answers.body {
        None => {
            return MaterializationStep::OpenBody {
                quantum: if context.write_quantum <= context.max_chunk_bytes {
                    context.write_quantum
                } else {
                    context.max_chunk_bytes
                },
            };
        },
        Some(Err(error)) => {
            return failure(error.clone());
        },
        Some(Ok(_)) => {},
    }
    let mut headers = match make_headers(context, answers, sealed, template) {
        Some(headers) => headers,
        None => {
            return failure("protocol_failed".to_owned());
        },
    };
    if needed {
        match &answers.signed {
            None => {
                return MaterializationStep::Sign(headers);
            },
            Some(None) => {
                return failure("authority_failed".to_owned());
            },
            Some(Some(signature)) => {
                sign_headers(&mut headers, signature);
            },
        }
    }
    finish_request(context, answers, sealed, template, headers)
}

/// Where the walk is, given the answers so far.
pub open spec fn next_of(context: AttemptContext, answers: AttemptAnswers, now: u128) -> StepView {
    match sealed_stop(context, answers) {
        Some(step) => step,
        None => {
            let sealed = answers.sealed->0->0;
            match permit_stop(context, answers, sealed, now) {
                Some(step) => step,
                None => match credential_stop(context, answers, sealed, now) {
                    Some(step) => step,
                    None => match target_stop(context, answers, sealed) {
                        Some(step) => step,
                        None => request_stop(context, answers, sealed),
                    },
                },
            }
        },
    }
}

/// Says what an attempt needs next.
pub fn next_step(context: &AttemptContext, answers: &AttemptAnswers, now: u128) -> (r:
    MaterializationStep)
    ensures
        r@ == next_of(*context, *answers, now),
{
    match stop_at_sealed(context, answers) {
        Some(step) => {
            return step;
        },
        None => {},
    }
    let sealed = match &answers.sealed {
        Some(Some(sealed)) => sealed,
        _ => {
            return failure("protocol_failed".to_owned());
        },
    };
    match stop_at_permit(context, answers, sealed, now) {
        Some(step) => {
            return step;
        },
        None => {},
    }
    match stop_at_credential(context, answers, sealed, now) {
        Some(step) => {
            return step;
        },
        None => {},
    }
    match stop_at_target(context, answers, sealed) {
        Some(step) => {
            return step;
        },
        None => {},
    }
    stop_at_request(context, answers, sealed)
}

/// Whether an answer is a permit.
pub open spec fn is_permit(answer: Option<Result<PermitAvailability, ()>>) -> bool {
    answer matches Some(Ok(PermitAvailability::Permit(_)))
}

/// A credential is leased only under the permit of the binding, and only for an execution that is
/// still what was sealed.
pub proof fn credentials_are_leased_under_a_permit(
    context: AttemptContext,
    answers: AttemptAnswers,
    now: u128,
)
    requires
        next_of(context, answers, now) is LeaseCredential,
    ensures
        is_permit(answers.binding_permit),
        sealed_stop(context, answers) is None,
        credential_need(answers.sealed->0->0, context.credential_ref@) == Some(true),
        next_of(context, answers, now)->LeaseCredential_0.credential_ref == context.credential_ref@,
        next_of(context, answers, now)->LeaseCredential_0.stable_binding_id
            == context.stable_target@,
{
}

/// A request is ready only under permits that were found valid after the credential was leased,
/// and a leased credential is the one that was asked for.
pub proof fn requests_leave_under_valid_permits(
    context: AttemptContext,
    answers: AttemptAnswers,
    now: u128,
)
    requires
        next_of(context, answers, now) is Ready,
    ensures
        sealed_stop(context, answers) is None,
        is_permit(answers.binding_permit),
        answers.permits_are_valid == Some(true),
        credential_need(answers.sealed->0->0, context.credential_ref@) == Some(true) ==> {
            &&& answers.lease matches Some(LeaseOutcome::Leased(lease)) && lease.credential_ref@
                == context.credential_ref@
            &&& is_permit(answers.credential_permit)
            &&& answers.signed matches Some(Some(_))
        },
{
}

/// A bridge never goes where the plan says: its request is ready only at the address that its
/// credential was leased with.
pub proof fn bridges_go_to_their_own_address(
    context: AttemptContext,
    answers: AttemptAnswers,
    now: u128,
)
    requires
        next_of(context, answers, now) is Ready,
        answers.sealed->0->0.execution.connector_runtime is CpaBridge,
    ensures
        redirect_of(context, answers, answers.sealed->0->0) matches Some(target)
            && override_is_allowed(answers.sealed->0->0.execution, target)
            && answers.override_is_valid == Some(true) && next_of(
            context,
            answers,
            now,
        )->Ready_0.target == redirected(context.target@, target),
{
}

/// A connector of the gateway itself is never redirected by a credential.
pub proof fn native_connectors_are_not_redirected(
    context: AttemptContext,
    answers: AttemptAnswers,
    now: u128,
)
    requires
        next_of(context, answers, now) is Ready,
        answers.sealed->0->0.execution.connector_runtime is BuiltinNative,
    ensures
        redirect_of(context, answers, answers.sealed->0->0) is None,
        next_of(context, answers, now)->Ready_0.target.authority == context.target.authority@,
        next_of(context, answers, now)->Ready_0.target.scheme == context.target.scheme,
        next_of(context, answers, now)->Ready_0.target.sni == text_view(context.target.sni),
{
}

/// Whatever a connector asks for and a credential signs with, the digest of the profile and the
/// identity of the ledger in a ready request are the candidate's own.
pub proof fn seals_are_the_candidates_own(
    context: AttemptContext,
    answers: AttemptAnswers,
    now: u128,
)
    requires
        next_of(context, answers, now) is Ready,
    ensures
        candidate_at(context.logical.frozen_candidates@, context.binding) matches Some(i) && {
            let candidate = context.logical.frozen_candidates@[i];
            let headers = next_of(context, answers, now)->Ready_0.headers;
            &&& candidate.profile_digest matches Some(digest)
                && headers["x-hiroute-profile-digest"@] == digest@
            &&& candidate.reason_ledger_identity matches Some(ledger)
                && headers["x-hiroute-reason-ledger-id"@] == ledger@
        },
{
    reveal_strlit("x-hiroute-profile-digest");
    reveal_strlit("x-hiroute-reason-ledger-id");
    assert("x-hiroute-profile-digest"@.len() != "x-hiroute-reason-ledger-id"@.len());
}

} // verus!
