//! What an upstream response comes to, told by the response alone: which failure is told to the
//! classifier, what is held back and what is sent.

use vstd::prelude::*;
use crate::text::{before_first, lowered, trimmed, visible_text};
use super::facts::{
    AttemptFailure, AttemptFailureClass, Disposition, FactsView, IngressProtocol,
    ProviderClassificationFacts, RetryabilityFact, UsageDimension,
};
use super::profile::CandidateProtocolProfile;
use super::response::{
    class_label, content_type_fits, decode_failure, decode_status, end_after, facts_of_failure,
    finish_end, header_value, native_end, provider_kind, response_end, retry_delay,
    semantic_facts, usage_fact, validate_native_content_type, ActionView, AttemptView, DecodedResponse, FinishReason,
    ModelErrorView, ModelEvent, ModelUsage, NativeTerminalOutcome, ProviderFailureKind,
    RawAttemptFailure, ResponseHead, SemanticTerminalOutcome,
};
use super::selection::{ProductionDecisionSession, SelectedGatewayAttempt};

verus! {

/// What each error code of the Messages protocol means, in any case: a refused credential, an
/// overload of the binding, a wrong request or a passing fault. Every other code means nothing.
pub proof fn messages_codes_mean_what_they_say(
    profile: CandidateProtocolProfile,
    error: ModelErrorView,
    code: Seq<char>,
)
    requires
        profile.is_sealed(),
        profile.capability.upstream_protocol == IngressProtocol::Messages,
        error.code == Some(code),
    ensures
        lowered(code) == "authentication_error"@ ==> provider_kind(profile, error) == Some(
            ProviderFailureKind::Credential,
        ),
        lowered(code) == "permission_error"@ ==> provider_kind(profile, error) == Some(
            ProviderFailureKind::Credential,
        ),
        lowered(code) == "rate_limit_error"@ ==> provider_kind(profile, error) == Some(
            ProviderFailureKind::BindingOverload,
        ),
        lowered(code) == "overloaded_error"@ ==> provider_kind(profile, error) == Some(
            ProviderFailureKind::BindingOverload,
        ),
        lowered(code) == "invalid_request_error"@ ==> provider_kind(profile, error) == Some(
            ProviderFailureKind::PermanentClient,
        ),
        lowered(code) == "not_found_error"@ ==> provider_kind(profile, error) == Some(
            ProviderFailureKind::PermanentClient,
        ),
        lowered(code) == "api_error"@ ==> provider_kind(profile, error) == Some(
            ProviderFailureKind::Transient,
        ),
        provider_kind(profile, error) is Some ==> lowered(code) == "authentication_error"@ || lowered(code) == "permission_error"@ || lowered(code) == "rate_limit_error"@ || lowered(code) == "overloaded_error"@ || lowered(code) == "invalid_request_error"@ || lowered(code) == "not_found_error"@ || lowered(code) == "api_error"@,
{
    reveal_strlit("authentication_error");
    reveal_strlit("permission_error");
    reveal_strlit("rate_limit_error");
    reveal_strlit("overloaded_error");
    reveal_strlit("invalid_request_error");
    reveal_strlit("not_found_error");
    reveal_strlit("api_error");
    assert("authentication_error"@.len() == 20);
    assert("permission_error"@.len() == 16);
    assert("rate_limit_error"@.len() == 16);
    assert("overloaded_error"@.len() == 16);
    assert("invalid_request_error"@.len() == 21);
    assert("not_found_error"@.len() == 15);
    assert("api_error"@.len() == 9);
    assert("permission_error"@[0] != "rate_limit_error"@[0]);
    assert("permission_error"@[0] != "overloaded_error"@[0]);
    assert("rate_limit_error"@[0] != "overloaded_error"@[0]);
}

/// What each error code of the Responses and the chat protocol means, in any case. Every other code
/// means nothing.
pub proof fn responses_codes_mean_what_they_say(
    profile: CandidateProtocolProfile,
    error: ModelErrorView,
    code: Seq<char>,
)
    requires
        profile.is_sealed(),
        profile.capability.upstream_protocol != IngressProtocol::Messages,
        error.code == Some(code),
    ensures
        lowered(code) == "invalid_api_key"@ ==> provider_kind(profile, error) == Some(
            ProviderFailureKind::Credential,
        ),
        lowered(code) == "authentication_error"@ ==> provider_kind(profile, error) == Some(
            ProviderFailureKind::Credential,
        ),
        lowered(code) == "unauthorized"@ ==> provider_kind(profile, error) == Some(
            ProviderFailureKind::Credential,
        ),
        lowered(code) == "insufficient_quota"@ ==> provider_kind(profile, error) == Some(
            ProviderFailureKind::Quota,
        ),
        lowered(code) == "quota_exceeded"@ ==> provider_kind(profile, error) == Some(
            ProviderFailureKind::Quota,
        ),
        lowered(code) == "rate_limit_exceeded"@ ==> provider_kind(profile, error) == Some(
            ProviderFailureKind::BindingOverload,
        ),
        lowered(code) == "server_overloaded"@ ==> provider_kind(profile, error) == Some(
            ProviderFailureKind::BindingOverload,
        ),
        lowered(code) == "invalid_request_error"@ ==> provider_kind(profile, error) == Some(
            ProviderFailureKind::PermanentClient,
        ),
        lowered(code) == "invalid_request"@ ==> provider_kind(profile, error) == Some(
            ProviderFailureKind::PermanentClient,
        ),
        lowered(code) == "protocol_error"@ ==> provider_kind(profile, error) == Some(
            ProviderFailureKind::Protocol,
        ),
        lowered(code) == "server_error"@ ==> provider_kind(profile, error) == Some(
            ProviderFailureKind::Transient,
        ),
        lowered(code) == "internal_error"@ ==> provider_kind(profile, error) == Some(
            ProviderFailureKind::Transient,
        ),
        provider_kind(profile, error) is Some ==> lowered(code) == "invalid_api_key"@ || lowered(code) == "authentication_error"@ || lowered(code) == "unauthorized"@ || lowered(code) == "insufficient_quota"@ || lowered(code) == "quota_exceeded"@ || lowered(code) == "rate_limit_exceeded"@ || lowered(code) == "server_overloaded"@ || lowered(code) == "invalid_request_error"@ || lowered(code) == "invalid_request"@ || lowered(code) == "protocol_error"@ || lowered(code) == "server_error"@ || lowered(code) == "internal_error"@,
{
    reveal_strlit("invalid_api_key");
    reveal_strlit("authentication_error");
    reveal_strlit("unauthorized");
    reveal_strlit("insufficient_quota");
    reveal_strlit("quota_exceeded");
    reveal_strlit("rate_limit_exceeded");
    reveal_strlit("server_overloaded");
    reveal_strlit("invalid_request_error");
    reveal_strlit("invalid_request");
    reveal_strlit("protocol_error");
    reveal_strlit("server_error");
    reveal_strlit("internal_error");
    assert("invalid_api_key"@.len() == 15);
    assert("authentication_error"@.len() == 20);
    assert("unauthorized"@.len() == 12);
    assert("insufficient_quota"@.len() == 18);
    assert("quota_exceeded"@.len() == 14);
    assert("rate_limit_exceeded"@.len() == 19);
    assert("server_overloaded"@.len() == 17);
    assert("invalid_request_error"@.len() == 21);
    assert("invalid_request"@.len() == 15);
    assert("protocol_error"@.len() == 14);
    assert("server_error"@.len() == 12);
    assert("internal_error"@.len() == 14);
    assert("invalid_api_key"@[8] != "invalid_request"@[8]);
    assert("unauthorized"@[0] != "server_error"@[0]);
    assert("quota_exceeded"@[0] != "protocol_error"@[0]);
    assert("quota_exceeded"@[0] != "internal_error"@[0]);
    assert("protocol_error"@[0] != "internal_error"@[0]);
}

/// A code that is told in other letters means the same; without a code, or on a profile that is not
/// sealed, an error means nothing.
pub proof fn codes_are_told_in_any_case(
    profile: CandidateProtocolProfile,
    error: ModelErrorView,
    other: ModelErrorView,
)
    ensures
        error.code is None ==> provider_kind(profile, error) is None,
        !profile.is_sealed() ==> provider_kind(profile, error) is None,
        error.code is Some && other.code is Some && error.code->0.len() == other.code->0.len() && (
        forall|i: int|
            0 <= i < error.code->0.len() ==> #[trigger] error.code->0[i] == other.code->0[i] || (
            'A' <= error.code->0[i] <= 'Z' && other.code->0[i] as u32 == error.code->0[i] as u32
                + 32)) ==> provider_kind(profile, error) == provider_kind(profile, other),
{
    if error.code is Some && other.code is Some && error.code->0.len() == other.code->0.len() && (
    forall|i: int|
        0 <= i < error.code->0.len() ==> #[trigger] error.code->0[i] == other.code->0[i] || ('A'
            <= error.code->0[i] <= 'Z' && other.code->0[i] as u32 == error.code->0[i] as u32
            + 32)) {
        let a = error.code->0;
        let b = other.code->0;
        assert forall|i: int| 0 <= i < a.len() implies lowered(a)[i] == lowered(b)[i] by {
            assert(a[i] == b[i] || ('A' <= a[i] <= 'Z' && b[i] as u32 == a[i] as u32 + 32));
        }
        assert(lowered(a) =~= lowered(b));
    }
}

/// Which failures of a connector can be told apart is what its profile says, flag by flag, and
/// nothing where the profile is not sealed or says nothing of errors.
pub proof fn profiles_tell_their_failures_apart(profile: CandidateProtocolProfile)
    ensures
        match profile.error_profile() {
            Some(told) => {
                &&& profile.is_sealed()
                &&& profile.connector.errors matches Some(errors) && told.http_status_typed
                    == errors.http_status_typed && told.stream_error_typed
                    == errors.sse_error_typed && (told.retry_after_typed
                    <==> errors.retry_after_header is Some)
            },
            None => !profile.is_sealed() || profile.connector.errors is None,
        },
        profile.is_sealed() ==> profile.capability.upstream_protocol
            == profile.connector.upstream_protocol && profile.connector.critical_facts_exact
            && profile.provider_path_exact && profile.reasoning_valid,
{
}

/// An error that the model reported is handed on as what it was: within a successful stream a
/// stream failure, otherwise a failure of the status that the error itself tells, or else of the
/// response. The client would see that status where it is one of a failure, and a bad gateway
/// otherwise. The delay is the one that the head told.
pub proof fn model_errors_are_handed_on(
    attempt: AttemptView,
    error: ModelErrorView,
    response_status: u16,
    stream: bool,
)
    requires
        attempt.profile.error_profile() is Some,
    ensures
        attempt.model_failing(error, response_status, stream) matches Ok(
            ActionView::Classify(failure),
        ) && {
            let status = if error.status is Some {
                error.status->0
            } else {
                response_status
            };
            let kind = provider_kind(attempt.profile, error);
            &&& Some(failure.errors) == attempt.profile.error_profile()
            &&& failure.raw == if stream && response_status / 100 == 2 {
                RawAttemptFailure::Stream { kind, retry_after: attempt.retry_after }
            } else {
                RawAttemptFailure::Http { status, kind, retry_after: attempt.retry_after }
            }
            &&& 100 <= status <= 999 && status / 100 != 2 ==> failure.local_status == status
            &&& status < 100 || status > 999 || status / 100 == 2 ==> failure.local_status == 502
        },
{
}

/// A response that could not be read is a protocol failure behind a bad gateway where its status
/// claimed success; any other keeps its status and its delay.
pub proof fn unreadable_responses_keep_failing_statuses(status: u16, retry_after: Option<u128>)
    ensures
        status / 100 == 2 ==> decode_failure(status, retry_after) == RawAttemptFailure::Protocol
            && decode_status(status) == 502,
        status / 100 != 2 ==> decode_failure(status, retry_after) == (RawAttemptFailure::Http {
            status,
            kind: None,
            retry_after,
        }) && decode_status(status) == status,
{
}

/// A final head is taken once. Refused credentials and server faults end the attempt with their
/// status and their delay; a head of another type than the profile was frozen for ends it as a
/// response that could not be read; every other head opens a codec, a projector for native output
/// of a successful response and a decoder otherwise. Informational heads change nothing.
pub proof fn heads_decide_what_is_read(attempt: AttemptView, head: ResponseHead)
    requires
        attempt.profile.error_profile() is Some,
    ensures
        ({
            let (action, after) = attempt.after_head(head);
            let status = head.status;
            let delay = retry_delay(attempt.profile, head.headers@);
            let fits = content_type_fits(head.headers@, attempt.streaming && status / 100 == 2);
            if status / 100 == 1 {
                action == Ok::<_, Seq<char>>(ActionView::Pending) && after == attempt
            } else if attempt.response_status is Some {
                action is Err && after == attempt
            } else {
                &&& after == (AttemptView {
                    response_status: Some(status),
                    retry_after: delay,
                    ..attempt
                })
                &&& !fits ==> (action matches Ok(ActionView::Classify(failure)) && failure.raw
                    == decode_failure(status, delay) && failure.local_status == decode_status(
                    status,
                ))
                &&& fits && (status == 401 || status == 403 || status / 100 == 5) ==> (
                action matches Ok(ActionView::Classify(failure)) && failure.raw == (
                RawAttemptFailure::Http { status, kind: None, retry_after: delay })
                    && failure.local_status == status)
                &&& fits && !(status == 401 || status == 403 || status / 100 == 5) ==> (
                action matches Ok(ActionView::OpenCodec { projector }) && projector == (
                attempt.native_output && status / 100 == 2))
            }
        }),
{
}

/// A codec that could not be opened fails the attempt; one that was opened is the attempt's from
/// then on, the projector or the decoder, and no other part of it changes.
pub proof fn opened_codecs_belong_to_the_attempt(
    attempt: AttemptView,
    projector: bool,
    opened: bool,
)
    ensures
        ({
            let (action, after) = attempt.after_codec(projector, opened);
            &&& opened <==> action == Ok::<_, Seq<char>>(ActionView::Pending)
            &&& !opened ==> action == Err::<ActionView, _>("protocol_failed"@)
            &&& after.projector == (attempt.projector || (opened && projector))
            &&& after.decoder == (attempt.decoder || (opened && !projector))
            &&& after.prefix == attempt.prefix && after.response_status == attempt.response_status
                && after.semantic_seen == attempt.semantic_seen && after.renderer
                == attempt.renderer && after.decoder_budget == attempt.decoder_budget
        }),
{
}

/// A header is found by its name in any case, and the first of that name counts.
pub proof fn headers_are_found_by_name(headers: Seq<(String, Vec<u8>)>, name: Seq<char>)
    ensures
        match header_value(headers, name) {
            Some(value) => exists|i: int|
                0 <= i < headers.len() && lowered((#[trigger] headers[i]).0@) == lowered(name)
                    && headers[i].1@ == value && forall|j: int|
                    0 <= j < i ==> lowered((#[trigger] headers[j]).0@) != lowered(name),
            None => forall|j: int|
                0 <= j < headers.len() ==> lowered((#[trigger] headers[j]).0@) != lowered(name),
        },
    decreases headers.len(),
{
    if headers.len() > 0 {
        let rest = headers.skip(1);
        assert forall|j: int| 1 <= j < headers.len() implies #[trigger] headers[j] == rest[j
            - 1] by {}
        if lowered(headers[0].0@) == lowered(name) {
            assert(headers[0].1@ == header_value(headers, name)->0);
        } else {
            headers_are_found_by_name(rest, name);
            if let Some(value) = header_value(rest, name) {
                let i = choose|i: int|
                    0 <= i < rest.len() && lowered((#[trigger] rest[i]).0@) == lowered(name)
                        && rest[i].1@ == value && forall|j: int|
                        0 <= j < i ==> lowered((#[trigger] rest[j]).0@) != lowered(name);
                assert(headers[i + 1].1@ == value);
                assert forall|j: int| 0 <= j < i + 1 implies lowered((#[trigger] headers[j]).0@)
                    != lowered(name) by {
                    if j > 0 {
                        assert(rest[j - 1] == headers[j]);
                    }
                }
            } else {
                assert forall|j: int| 0 <= j < headers.len() implies lowered(
                    (#[trigger] headers[j]).0@,
                ) != lowered(name) by {
                    if j > 0 {
                        assert(rest[j - 1] == headers[j]);
                    }
                }
            }
        }
    }
}

/// A delay comes from the header that the profile trusts, as whole seconds, and from no other; a
/// profile without one trusts none.
pub proof fn delays_come_from_the_trusted_header(
    profile: CandidateProtocolProfile,
    headers: Seq<(String, Vec<u8>)>,
)
    ensures
        profile.connector.errors is None || profile.connector.errors->0.retry_after_header is None
            ==> retry_delay(profile, headers) is None,
        retry_delay(profile, headers) matches Some(delay) ==> {
            let name = profile.connector.errors->0.retry_after_header->0@;
            let text = crate::text::visible_text(header_value(headers, name)->0)->0;
            &&& header_value(headers, name) is Some
            &&& delay as int == crate::text::parsed_u64(text)->0 * 1_000_000_000
        },
        profile.connector.errors is Some && (
        profile.connector.errors->0.retry_after_header matches Some(name) && header_value(
            headers,
            name@,
        ) matches Some(value) && crate::text::visible_text(value) matches Some(text)
            && crate::text::parsed_u64(text) is Some) ==> retry_delay(profile, headers) is Some,
{
}

/// The label of each class of failure. No two classes share one, so that a decision on the label is
/// one on the class.
pub proof fn classes_have_their_own_labels(class: AttemptFailureClass)
    ensures
        class is Credential <==> class_label(class) == "credential"@,
        class is Quota <==> class_label(class) == "quota"@,
        class is BindingOverload <==> class_label(class) == "binding_overload"@,
        class is Protocol <==> class_label(class) == "protocol"@,
        class is PermanentClient <==> class_label(class) == "permanent_client"@,
        class is Transient <==> class_label(class) == "transient"@,
        class is Timeout <==> class_label(class) == "timeout"@,
        class is Disconnect <==> class_label(class) == "disconnect"@,
        class is PreOutputStream <==> class_label(class) == "preoutput_stream"@,
        class is PostCommit <==> class_label(class) == "postcommit"@,
        class is Unclassified <==> class_label(class) == "unclassified"@,
{
    reveal_strlit("credential");
    reveal_strlit("quota");
    reveal_strlit("binding_overload");
    reveal_strlit("protocol");
    reveal_strlit("permanent_client");
    reveal_strlit("transient");
    reveal_strlit("timeout");
    reveal_strlit("disconnect");
    reveal_strlit("preoutput_stream");
    reveal_strlit("postcommit");
    reveal_strlit("unclassified");
    assert("credential"@.len() == 10);
    assert("quota"@.len() == 5);
    assert("binding_overload"@.len() == 16);
    assert("protocol"@.len() == 8);
    assert("permanent_client"@.len() == 16);
    assert("transient"@.len() == 9);
    assert("timeout"@.len() == 7);
    assert("disconnect"@.len() == 10);
    assert("preoutput_stream"@.len() == 16);
    assert("postcommit"@.len() == 10);
    assert("unclassified"@.len() == 12);
    assert("credential"@[0] != "disconnect"@[0]);
    assert("credential"@[0] != "postcommit"@[0]);
    assert("binding_overload"@[0] != "permanent_client"@[0]);
    assert("binding_overload"@[0] != "preoutput_stream"@[0]);
    assert("permanent_client"@[1] != "preoutput_stream"@[1]);
    assert("disconnect"@[0] != "postcommit"@[0]);
}

/// What is told of a classified failure: its class, that it may be tried again exactly where it may
/// be relayed, its status where that is one, and its delay; and nothing of a model.
pub proof fn failures_are_told_as_classified(failure: AttemptFailure)
    ensures
        ({
            let facts = facts_of_failure(failure);
            &&& facts.error_class == Some(class_label(failure.class))
            &&& facts.retryability == RetryabilityFact::Retryable
                <==> failure.precommit_relayable
            &&& facts.retryability == RetryabilityFact::NonRetryable
                <==> !failure.precommit_relayable
            &&& facts.retry_after == failure.retry_after
            &&& failure.status is None ==> facts.http_status is None
            &&& (failure.status matches Some(status) && 100 <= status <= 999) ==> facts.http_status
                == failure.status
            &&& (failure.status matches Some(status) && !(100 <= status <= 999))
                ==> facts.http_status is None
            &&& facts.readiness == "classified_response"@
            &&& facts.model_event is None && facts.usage is None && facts.ended_at is None
        }),
{
}

/// A response that said something is accepted by every session, wherever its cursor stands: its
/// facts hold no error and call for no retry. A classified failure is never accepted.
pub proof fn what_says_something_is_accepted(
    session: ProductionDecisionSession,
    selected: SelectedGatewayAttempt,
    facts: ProviderClassificationFacts,
    status: u16,
    failure: AttemptFailure,
)
    ensures
        facts@ == semantic_facts(status) ==> session.decided(selected, facts).0 == Ok::<
            _,
            Seq<char>,
        >(Disposition::Accept) && facts.http_status == Some(status),
        facts@ == facts_of_failure(failure) ==> session.decided(selected, facts).0 != Ok::<
            _,
            Seq<char>,
        >(Disposition::Accept),
{
    if facts@ == facts_of_failure(failure) {
        assert(facts@.error_class is Some);
    }
}

/// A response is complete where the model stopped or called a tool; every other reason leaves it
/// incomplete, and an error makes it failed. What a projector reports is kept as it is.
pub proof fn ends_keep_their_meaning(
    reason: FinishReason,
    outcome: NativeTerminalOutcome,
    current: Option<SemanticTerminalOutcome>,
    event: ModelEvent,
    response: DecodedResponse,
)
    ensures
        finish_end(reason) == SemanticTerminalOutcome::Complete <==> reason == FinishReason::Stop
            || reason == FinishReason::ToolCall,
        finish_end(reason) == SemanticTerminalOutcome::Incomplete <==> reason
            == FinishReason::Length || reason == FinishReason::Refusal || reason
            == FinishReason::Cancelled || reason == FinishReason::Other,
        native_end(outcome) == SemanticTerminalOutcome::Complete <==> outcome
            == NativeTerminalOutcome::Complete,
        native_end(outcome) == SemanticTerminalOutcome::Incomplete <==> outcome
            == NativeTerminalOutcome::Incomplete,
        native_end(outcome) == SemanticTerminalOutcome::Failed <==> outcome
            == NativeTerminalOutcome::Failed,
        native_end(outcome) == SemanticTerminalOutcome::Unknown <==> outcome
            == NativeTerminalOutcome::Unknown,
        event is ResponseFailed ==> end_after(current, event) == Some(
            SemanticTerminalOutcome::Failed,
        ),
        event matches ModelEvent::FinishReason { reason } ==> end_after(current, event) == Some(
            finish_end(reason),
        ),
        event is ResponseCompleted || event is Other ==> end_after(current, event) == current,
        response.error is Some ==> response_end(response) == Some(
            SemanticTerminalOutcome::Failed,
        ),
        response.error is None && response.finish_reason is None ==> response_end(response) is None,
        response.error is None && response.finish_reason is Some ==> response_end(response) == Some(
            finish_end(response.finish_reason->0),
        ),
{
}

/// Every dimension of usage is told as it was reported, each in its own place; what was not
/// reported is unknown, and so is always what is billed.
pub proof fn usage_is_told_as_reported(usage: ModelUsage)
    ensures
        ({
            let told = usage_fact(usage);
            &&& told.billable == UsageDimension::Unknown
            &&& usage.input_tokens matches Some(n) ==> told.input == UsageDimension::Reported(n)
            &&& usage.input_tokens is None ==> told.input == UsageDimension::Unknown
            &&& usage.output_tokens matches Some(n) ==> told.output == UsageDimension::Reported(n)
            &&& usage.output_tokens is None ==> told.output == UsageDimension::Unknown
            &&& usage.cache_read_tokens matches Some(n) ==> told.cache_read
                == UsageDimension::Reported(n)
            &&& usage.cache_read_tokens is None ==> told.cache_read == UsageDimension::Unknown
            &&& usage.cache_write_tokens matches Some(n) ==> told.cache_write
                == UsageDimension::Reported(n)
            &&& usage.cache_write_tokens is None ==> told.cache_write == UsageDimension::Unknown
            &&& usage.reasoning_tokens matches Some(n) ==> told.reasoning
                == UsageDimension::Reported(n)
            &&& usage.reasoning_tokens is None ==> told.reasoning == UsageDimension::Unknown
        }),
{
}

/// The readiness of an attempt holds everything that the attempt held, under the status and type
/// that were asked for, and the attempt holds none of it any more. It is taken once.
pub proof fn readiness_takes_everything_once(
    attempt: AttemptView,
    facts: FactsView,
    status: u16,
    content_type: Seq<char>,
    pending: bool,
    again: FactsView,
)
    ensures
        ({
            let (action, after) = attempt.ready(facts, status, content_type, pending);
            &&& attempt.prefix is None <==> action is Err
            &&& action matches Ok(other) ==> {
                &&& other matches ActionView::Ready { facts: told, readiness } && told == facts
                    && readiness.response_status == status && readiness.content_type
                    == content_type && readiness.prefix_eos_pending == pending
                    && readiness.terminal_body is None && Some(readiness.prefix) == attempt.prefix
                    && readiness.prefix_terminal_chunks == attempt.prefix_terminal_chunks
                    && readiness.decoder == attempt.decoder && readiness.renderer
                    == attempt.renderer && readiness.projector == attempt.projector
                    && readiness.decoder_budget == attempt.decoder_budget && readiness.streaming
                    == attempt.streaming && readiness.semantic_terminal
                    == attempt.semantic_terminal
                &&& after.prefix is None && after.decoder_budget is None && !after.decoder
                    && !after.renderer && !after.projector
                &&& after.ready(again, status, content_type, pending).0 is Err
            }
        }),
{
}

/// A response is read only where its media type, in whatever case and whatever follows it, is that
/// of what was asked for: an event stream for a stream, a JSON document otherwise.
pub proof fn media_types_are_those_asked_for(
    head: &ResponseHead,
    streaming: bool,
    r: Result<(), String>,
    value: Seq<u8>,
    text: Seq<char>,
)
    requires
        call_ensures(validate_native_content_type, (head, streaming), r),
    ensures
        header_value(head.headers@, "content-type"@) == Some(value) && visible_text(value) == Some(
            text,
        ) ==> (r is Ok <==> lowered(trimmed(before_first(text, ';'))) == if streaming {
            "text/event-stream"@
        } else {
            "application/json"@
        }),
        header_value(head.headers@, "content-type"@) is None ==> r is Err,
{
    reveal_strlit("text/event-stream");
    reveal_strlit("application/json");
    assert(lowered("text/event-stream"@) =~= "text/event-stream"@);
    assert(lowered("application/json"@) =~= "application/json"@);
}

} // verus!
