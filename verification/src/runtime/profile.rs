//! The frozen protocol profile of a candidate, as far as the runtime reads it.

use vstd::prelude::*;
use crate::text::{blank, is_blank, same};
use super::facts::IngressProtocol;

verus! {

/// How a connector authenticates, where that is exactly known.
#[derive(Clone, Copy, Debug, PartialEq, Eq, Structural)]
pub enum AuthenticationSemantics {
    Anonymous,
    Required,
}

/// Which of a connector's errors are typed.
#[derive(Debug)]
pub struct ConnectorErrors {
    pub http_status_typed: bool,
    pub sse_error_typed: bool,
    pub retry_after_header: Option<String>,
}

/// The headers that a connector sends with every request.
#[derive(Debug)]
pub struct ConnectorHeaders {
    pub content_type: String,
    pub required_headers: Vec<(String, String)>,
}

/// A connector profile. A field that holds an `Option` is `None` where the fact is not exact.
#[derive(Debug)]
pub struct ConnectorProfile {
    pub schema_version: String,
    pub connector_id: String,
    pub request_path: String,
    pub upstream_protocol: IngressProtocol,
    pub critical_facts_exact: bool,
    pub authentication: Option<AuthenticationSemantics>,
    pub headers: Option<ConnectorHeaders>,
    pub errors: Option<ConnectorErrors>,
}

#[derive(Debug)]
pub struct CandidateCapability {
    pub schema_version: String,
    pub upstream_protocol: IngressProtocol,
    pub native_model: String,
}

#[derive(Debug)]
pub struct CandidateProtocolProfile {
    pub schema_version: String,
    pub adapter_revision: String,
    pub serializer_revision: String,
    pub decoder_revision: String,
    pub ingress_protocol: IngressProtocol,
    pub capability: CandidateCapability,
    pub connector: ConnectorProfile,
    /// The path of the provider's requests is exactly known.
    pub provider_path_exact: bool,
    /// The selected reasoning is valid for the upstream protocol.
    pub reasoning_valid: bool,
}

/// Which failures of a connector can be told apart.
#[derive(Clone, Copy, Debug, PartialEq, Eq, Structural)]
pub struct ConnectorErrorProfile {
    pub http_status_typed: bool,
    pub stream_error_typed: bool,
    pub retry_after_typed: bool,
}

impl CandidateProtocolProfile {
    /// The profile itself fixes the meaning of its connector's errors. Which connector it is does
    /// not matter.
    pub open spec fn is_sealed(self) -> bool {
        &&& self.schema_version@ == "hiroute.candidate-protocol-profile/v1"@
        &&& self.capability.schema_version@ == "hiroute.candidate-capability/v1"@
        &&& self.connector.schema_version@ == "hiroute.connector-profile/v1"@
        &&& !is_blank(self.adapter_revision@)
        &&& !is_blank(self.serializer_revision@)
        &&& !is_blank(self.decoder_revision@)
        &&& self.capability.upstream_protocol == self.connector.upstream_protocol
        &&& self.connector.critical_facts_exact
        &&& self.provider_path_exact
        &&& self.reasoning_valid
    }

    /// Which failures can be told apart, where the profile is sealed and its errors exact.
    pub open spec fn error_profile(self) -> Option<ConnectorErrorProfile> {
        match self.connector.errors {
            Some(errors) => if self.is_sealed() {
                Some(
                    ConnectorErrorProfile {
                        http_status_typed: errors.http_status_typed,
                        stream_error_typed: errors.sse_error_typed,
                        retry_after_typed: errors.retry_after_header is Some,
                    },
                )
            } else {
                None
            },
            None => None,
        }
    }
}

pub fn sealed_connector_semantics(profile: &CandidateProtocolProfile) -> (r: bool)
    ensures
        r == profile.is_sealed(),
{
    same(profile.schema_version.as_str(), "hiroute.candidate-protocol-profile/v1") && same(
        profile.capability.schema_version.as_str(),
        "hiroute.candidate-capability/v1",
    ) && same(profile.connector.schema_version.as_str(), "hiroute.connector-profile/v1") && !blank(
        profile.adapter_revision.as_str(),
    ) && !blank(profile.serializer_revision.as_str()) && !blank(profile.decoder_revision.as_str())
        && profile.capability.upstream_protocol == profile.connector.upstream_protocol
        && profile.connector.critical_facts_exact && profile.provider_path_exact
        && profile.reasoning_valid
}

pub fn connector_error_profile(profile: &CandidateProtocolProfile) -> (r: Result<
    ConnectorErrorProfile,
    String,
>)
    ensures
        match profile.error_profile() {
            Some(errors) => r == Ok::<ConnectorErrorProfile, String>(errors),
            None => r matches Err(error) && error@ == "protocol_failed"@,
        },
{
    if !sealed_connector_semantics(profile) {
        return Err("protocol_failed".to_owned());
    }
    match &profile.connector.errors {
        Some(errors) => Ok(
            ConnectorErrorProfile {
                http_status_typed: errors.http_status_typed,
                stream_error_typed: errors.sse_error_typed,
                retry_after_typed: errors.retry_after_header.is_some(),
            },
        ),
        None => Err("protocol_failed".to_owned()),
    }
}

} // verus!
