//! The steps of an attempt from its response head to a classified result.

use vstd::prelude::*;
use super::body::{flat, push_queue_bytes, QueueView, StreamBudget};
use super::facts::{AttemptFailure, FactsView, ProviderClassificationFacts, RetryabilityFact, unknown_facts};
use super::response::{
    action_view, classify_model_error, content_type_fits, decode_failure, decode_status,
    end_after, error_view, facts_of_failure, failure_facts, is_informational, is_success,
    native_end, native_terminal, observe_semantic_terminal, response_decode_failure,
    response_decode_local_status, response_end, retry_delay, semantic_facts,
    semantic_terminal_for_response, state_failure, success, take_readiness, take_semantic,
    trusted_retry_after, validate_native_content_type, ActionResult, ActionView, AttemptView,
    DecodeEnd, DecodeReport, DecodedEvent, DecodedResponse, ModelError, ModelErrorView,
    ModelEvent, NativeUnit, PrecommitAction, ProductionAttemptState, RawAttemptFailure,
    ReadinessView, RenderedClientResponse, ResponseHead, Step,
};
use super::selection::result_view;

verus! {

impl AttemptView {
    /// What a response head leads to. Informational heads are passed over; a second final head is
    /// an error; a head of the wrong type or with a failing status ends the attempt; any other
    /// head opens the codec that reads the body.
    pub open spec fn after_head(self, head: ResponseHead) -> (ActionResult, AttemptView) {
        let status = head.status;
        if is_informational(status) {
            (Ok(ActionView::Pending), self)
        } else if self.response_status is Some {
            (Err("provider emitted more than one final response head"@), self)
        } else {
            let seen = AttemptView {
                response_status: Some(status),
                retry_after: retry_delay(self.profile, head.headers@),
                ..self
            };
            if !content_type_fits(head.headers@, self.streaming && is_success(status)) {
                (
                    seen.failing(
                        decode_failure(status, seen.retry_after),
                        decode_status(status),
                    ),
                    seen,
                )
            } else if status == 401 || status == 403 || 500 <= status <= 599 {
                (
                    seen.failing(
                        RawAttemptFailure::Http {
                            status,
                            kind: None,
                            retry_after: seen.retry_after,
                        },
                        status,
                    ),
                    seen,
                )
            } else {
                (
                    Ok(
                        ActionView::OpenCodec {
                            projector: self.native_output && is_success(status),
                        },
                    ),
                    seen,
                )
            }
        }
    }

    /// What an opened codec leads to. The tool projection goes into the codec either way.
    pub open spec fn after_codec(self, projector: bool, opened: bool) -> (
        ActionResult,
        AttemptView,
    ) {
        let moved = AttemptView { chat_tool_projection: false, ..self };
        if !opened {
            (Err("protocol_failed"@), moved)
        } else if projector {
            (Ok(ActionView::Pending), AttemptView { projector: true, ..moved })
        } else {
            (Ok(ActionView::Pending), AttemptView { decoder: true, ..moved })
        }
    }

    /// Whether the codecs of a streamed response are in place.
    pub open spec fn stream_codecs_open(self) -> bool {
        if self.native_output {
            self.projector
        } else {
            self.decoder && self.renderer && self.prefix is Some
        }
    }

    /// The codec work that bytes or the end of a response call for.
    pub open spec fn feeding(self, status: u16, end_stream: bool) -> ActionResult {
        if self.streaming && is_success(status) {
            if self.stream_codecs_open() {
                Ok(ActionView::Feed { projector: self.native_output, end_stream })
            } else {
                self.protocol_failing()
            }
        } else if self.native_output && is_success(status) {
            if self.projector {
                Ok(ActionView::Feed { projector: true, end_stream })
            } else {
                Err("native response projector is unavailable"@)
            }
        } else if self.decoder {
            Ok(ActionView::Feed { projector: false, end_stream })
        } else {
            Err("native response decoder is unavailable"@)
        }
    }

    /// What body bytes lead to: they are charged first, and only then may a codec copy them.
    pub open spec fn after_body(self, budget: StreamBudget, retained: usize) -> Step {
        match self.decoder_budget {
            None => Step {
                action: Err("native decoder budget owner is unavailable"@),
                attempt: self,
                budget,
            },
            Some(account) => {
                let (charged, account, budget) = account.charged(budget, retained);
                let attempt = AttemptView { decoder_budget: Some(account), ..self };
                Step {
                    action: match charged {
                        Err(error) => Err(error),
                        Ok(()) => match self.response_status {
                            None => Err("provider body arrived before final response head"@),
                            Some(status) => attempt.feeding(status, false),
                        },
                    },
                    attempt,
                    budget,
                }
            },
        }
    }

    /// What the end of the response leads to.
    pub open spec fn after_end(self) -> ActionResult {
        match self.response_status {
            None => Err("provider ended before final response head"@),
            Some(status) => self.feeding(status, true),
        }
    }

    /// The attempt with some bytes more in its prefix.
    pub open spec fn pushed(self, budget: StreamBudget, bytes: Seq<u8>) -> (
        Result<(), Seq<char>>,
        AttemptView,
        StreamBudget,
    ) {
        match self.prefix {
            None => (Err("response prefix owner is unavailable"@), self, budget),
            Some(queue) => {
                let (r, queue, budget) = queue.pushed(budget, bytes);
                (r, AttemptView { prefix: Some(queue), ..self }, budget)
            },
        }
    }

    /// The attempt with one projected unit more in its prefix. Nothing follows a terminal unit,
    /// and a terminal unit has bytes to carry the end of the stream.
    pub open spec fn unit_pushed(self, budget: StreamBudget, bytes: Seq<u8>, terminal: bool) -> (
        Result<(), Seq<char>>,
        AttemptView,
        StreamBudget,
    ) {
        if self.prefix_terminal_chunks is Some {
            (Err("native response emitted output after terminal"@), self, budget)
        } else {
            let (r, attempt, budget) = self.pushed(budget, bytes);
            if r is Err || !terminal {
                (r, attempt, budget)
            } else if attempt.prefix->0.chunks.len() == 0 {
                (Err("native terminal produced no wire bytes"@), attempt, budget)
            } else {
                (
                    Ok(()),
                    AttemptView {
                        prefix_terminal_chunks: Some(attempt.prefix->0.chunks.len() as usize),
                        ..attempt
                    },
                    budget,
                )
            }
        }
    }
}

pub fn on_response_head(state: &mut ProductionAttemptState, head: &ResponseHead) -> (r: Result<
    PrecommitAction,
    String,
>)
    ensures
        (action_view(r), final(state)@) == old(state)@.after_head(*head),
        final(state).prefix == old(state).prefix,
        final(state).decoder_budget == old(state).decoder_budget,
{
    let status: u16 = head.status;
    if 100 <= status && status < 200 {
        return Ok(PrecommitAction::Pending);
    }
    if state.response_status.is_some() {
        return Err("provider emitted more than one final response head".to_owned());
    }
    state.response_status = Some(status);
    state.retry_after = trusted_retry_after(&state.profile, head);
    match validate_native_content_type(head, state.streaming && success(status)) {
        Ok(()) => {},
        Err(_) => {
            let raw = response_decode_failure(status, state.retry_after);
            return state_failure(state, raw, response_decode_local_status(status));
        },
    }
    if status == 401 || status == 403 || (500 <= status && status <= 599) {
        return state_failure(
            state,
            RawAttemptFailure::Http { status, kind: None, retry_after: state.retry_after },
            status,
        );
    }
    Ok(PrecommitAction::OpenCodec { projector: state.native_output && success(status) })
}

pub fn on_codec_opened(state: &mut ProductionAttemptState, projector: bool, opened: bool) -> (r:
    Result<PrecommitAction, String>)
    ensures
        (action_view(r), final(state)@) == old(state)@.after_codec(projector, opened),
        final(state).prefix == old(state).prefix,
        final(state).decoder_budget == old(state).decoder_budget,
{
    state.chat_tool_projection = false;
    if !opened {
        return Err("protocol_failed".to_owned());
    }
    if projector {
        state.projector = true;
    } else {
        state.decoder = true;
    }
    Ok(PrecommitAction::Pending)
}

fn feed(state: &ProductionAttemptState, status: u16, end_stream: bool) -> (r: Result<
    PrecommitAction,
    String,
>)
    ensures
        action_view(r) == state@.feeding(status, end_stream),
{
    if state.streaming && success(status) {
        let open = if state.native_output {
            state.projector
        } else {
            state.decoder && state.renderer && state.prefix.is_some()
        };
        if !open {
            return state_failure(state, RawAttemptFailure::Protocol, 502);
        }
        return Ok(PrecommitAction::Feed { projector: state.native_output, end_stream });
    }
    if state.native_output && success(status) {
        if !state.projector {
            return Err("native response projector is unavailable".to_owned());
        }
        return Ok(PrecommitAction::Feed { projector: true, end_stream });
    }
    if !state.decoder {
        return Err("native response decoder is unavailable".to_owned());
    }
    Ok(PrecommitAction::Feed { projector: false, end_stream })
}

/// Body bytes have arrived; `retained` is what holding them takes.
pub fn on_body(
    state: &mut ProductionAttemptState,
    budget: &mut StreamBudget,
    retained: usize,
) -> (r: Result<PrecommitAction, String>)
    requires
        old(state).wf(*old(budget)),
    ensures
        final(state).wf(*final(budget)),
        (Step { action: action_view(r), attempt: final(state)@, budget: *final(budget) }) == old(
            state,
        )@.after_body(*old(budget), retained),
{
    let mut account = match state.decoder_budget.take() {
        Some(account) => account,
        None => return Err("native decoder budget owner is unavailable".to_owned()),
    };
    let charged = account.charge_frame(budget, retained);
    state.decoder_budget = Some(account);
    match charged {
        Ok(()) => {},
        Err(error) => return Err(error),
    }
    match state.response_status {
        Some(status) => feed(state, status, false),
        None => Err("provider body arrived before final response head".to_owned()),
    }
}

/// A decoded event has arrived from elsewhere than the profile's own decoder: it is refused.
pub fn on_sse_event() -> (r: Result<PrecommitAction, String>)
    ensures
        action_view(r) == Err::<ActionView, Seq<char>>(
            "native SSE must enter through the profile decoder"@,
        ),
{
    Err("native SSE must enter through the profile decoder".to_owned())
}

pub fn on_end_stream(state: &ProductionAttemptState) -> (r: Result<PrecommitAction, String>)
    ensures
        action_view(r) == state@.after_end(),
{
    match state.response_status {
        Some(status) => feed(state, status, true),
        None => Err("provider ended before final response head".to_owned()),
    }
}

fn push_prefix_bytes(
    state: &mut ProductionAttemptState,
    budget: &mut StreamBudget,
    bytes: &[u8],
) -> (r: Result<(), String>)
    requires
        old(state).wf(*old(budget)),
    ensures
        final(state).wf(*final(budget)),
        (result_view(r), final(state)@, *final(budget)) == old(state)@.pushed(
            *old(budget),
            bytes@,
        ),
{
    let mut queue = match state.prefix.take() {
        Some(queue) => queue,
        None => return Err("response prefix owner is unavailable".to_owned()),
    };
    let ghost was = queue@;
    let r = push_queue_bytes(&mut queue, budget, bytes);
    proof {
        let chunks = super::body::cut(bytes@, was.max_chunk_bytes as nat);
        let taken = was.accepted(*old(budget), chunks) as int;
        super::body::flat_joins(was.chunks, chunks.take(taken));
        lemma_accepted_fits(was, *old(budget), chunks);
    }
    state.prefix = Some(queue);
    r
}

/// The chunks that a queue and a budget take fit both of them.
proof fn lemma_accepted_fits(queue: QueueView, budget: StreamBudget, chunks: Seq<Seq<u8>>)
    requires
        budget.wf(),
    ensures
        queue.accepted(budget, chunks) <= chunks.len(),
        budget.live + flat(chunks.take(queue.accepted(budget, chunks) as int)).len()
            <= budget.limit,
    decreases chunks.len(),
{
    let taken = queue.accepted(budget, chunks) as int;
    if chunks.len() > 0 && taken > 0 {
        let n = chunks[0].len() as int;
        let rest = QueueView { chunks: queue.chunks.push(chunks[0]), ..queue };
        lemma_accepted_fits(rest, budget.holding(n), chunks.skip(1));
        assert(chunks.take(taken).skip(1) == chunks.skip(1).take(taken - 1));
        assert(chunks.take(taken)[0] == chunks[0]);
    } else {
        assert(chunks.take(0) == Seq::<Seq<u8>>::empty());
    }
}

fn push_native_prefix_unit(
    state: &mut ProductionAttemptState,
    budget: &mut StreamBudget,
    bytes: &[u8],
    terminal: bool,
) -> (r: Result<(), String>)
    requires
        old(state).wf(*old(budget)),
    ensures
        final(state).wf(*final(budget)),
        (result_view(r), final(state)@, *final(budget)) == old(state)@.unit_pushed(
            *old(budget),
            bytes@,
            terminal,
        ),
{
    if state.prefix_terminal_chunks.is_some() {
        return Err("native response emitted output after terminal".to_owned());
    }
    match push_prefix_bytes(state, budget, bytes) {
        Ok(()) => {},
        Err(error) => return Err(error),
    }
    if terminal {
        let chunks: usize = match &state.prefix {
            Some(queue) => queue.len(),
            None => return Err("response prefix owner is unavailable".to_owned()),
        };
        if chunks == 0 {
            return Err("native terminal produced no wire bytes".to_owned());
        }
        state.prefix_terminal_chunks = Some(chunks);
    }
    Ok(())
}

/// What some stream output has shown so far.
pub struct StreamView {
    pub attempt: AttemptView,
    pub budget: StreamBudget,
    pub semantic: bool,
    pub failure: Option<ModelErrorView>,
}

impl StreamView {
    /// Takes projected units in order. A failure counts only before any semantic output.
    pub open spec fn projected(self, units: Seq<NativeUnit>) -> (Result<(), Seq<char>>, StreamView)
        decreases units.len(),
    {
        if units.len() == 0 {
            (Ok(()), self)
        } else {
            let unit = units[0];
            let ended = match unit.terminal {
                Some(outcome) => AttemptView {
                    semantic_terminal: Some(native_end(outcome)),
                    terminal_seen: true,
                    ..self.attempt
                },
                None => self.attempt,
            };
            let failure = if unit.failure is Some && !(self.attempt.semantic_seen
                || self.semantic) {
                error_view(unit.failure)
            } else {
                self.failure
            };
            let (r, attempt, budget) = ended.unit_pushed(
                self.budget,
                unit.bytes@,
                unit.terminal is Some,
            );
            let next = StreamView {
                attempt,
                budget,
                semantic: self.semantic || unit.semantic,
                failure,
            };
            if r is Err {
                (r, next)
            } else {
                next.projected(units.skip(1))
            }
        }
    }

    /// Puts rendered pieces into the prefix in order.
    pub open spec fn rendered(self, pieces: Seq<Vec<u8>>) -> (Result<(), Seq<char>>, StreamView)
        decreases pieces.len(),
    {
        if pieces.len() == 0 {
            (Ok(()), self)
        } else {
            let (r, attempt, budget) = self.attempt.pushed(self.budget, pieces[0]@);
            let next = StreamView { attempt, budget, ..self };
            if r is Err {
                (r, next)
            } else {
                next.rendered(pieces.skip(1))
            }
        }
    }

    /// What an event shows before it is rendered. A failure counts only before any semantic
    /// output.
    pub open spec fn observed(self, event: DecodedEvent) -> StreamView {
        StreamView {
            attempt: AttemptView {
                semantic_terminal: end_after(self.attempt.semantic_terminal, event.event),
                ..self.attempt
            },
            failure: match event.event {
                ModelEvent::ResponseFailed { error } => if !self.attempt.semantic_seen
                    && !self.semantic {
                    Some(error@)
                } else {
                    self.failure
                },
                _ => self.failure,
            },
            ..self
        }
    }

    /// Takes one decoded event.
    pub open spec fn decoded_one(self, event: DecodedEvent) -> (Result<(), Seq<char>>, StreamView) {
        let (r, next) = self.observed(event).rendered(event.rendered@);
        if r is Err {
            (r, next)
        } else if event.render_error is Some {
            (Err("client stream event is not representable"@), next)
        } else {
            let last = event.event is ResponseCompleted || event.event is ResponseFailed;
            (
                Ok(()),
                StreamView {
                    attempt: AttemptView {
                        terminal_seen: next.attempt.terminal_seen || last,
                        ..next.attempt
                    },
                    semantic: next.semantic || event.semantic,
                    ..next
                },
            )
        }
    }

    /// Takes decoded events in order.
    pub open spec fn decoded(self, events: Seq<DecodedEvent>) -> (Result<(), Seq<char>>, StreamView)
        decreases events.len(),
    {
        if events.len() == 0 {
            (Ok(()), self)
        } else {
            let (r, next) = self.decoded_one(events[0]);
            if r is Err {
                (r, next)
            } else {
                next.decoded(events.skip(1))
            }
        }
    }

    /// The attempt once it knows of the semantic output.
    pub open spec fn settled(self) -> AttemptView {
        AttemptView { semantic_seen: self.attempt.semantic_seen || self.semantic, ..self.attempt }
    }
}

/// What stream output has shown so far.
struct StreamOutcome {
    semantic: bool,
    failure: Option<ModelError>,
}

spec fn stream_view(
    state: ProductionAttemptState,
    budget: StreamBudget,
    outcome: StreamOutcome,
) -> StreamView {
    StreamView {
        attempt: state@,
        budget,
        semantic: outcome.semantic,
        failure: error_view(outcome.failure),
    }
}

fn copied_error(error: &Option<ModelError>) -> (r: Option<ModelError>)
    ensures
        error_view(r) == error_view(*error),
{
    match error {
        Some(error) => Some(error.copied()),
        None => None,
    }
}

fn project_units(
    state: &mut ProductionAttemptState,
    budget: &mut StreamBudget,
    units: &Vec<NativeUnit>,
) -> (r: (Result<(), String>, StreamOutcome))
    requires
        old(state).wf(*old(budget)),
    ensures
        final(state).wf(*final(budget)),
        (result_view(r.0), stream_view(*final(state), *final(budget), r.1)) == (StreamView {
            attempt: old(state)@,
            budget: *old(budget),
            semantic: false,
            failure: None,
        }).projected(units@),
{
    let mut outcome = StreamOutcome { semantic: false, failure: None };
    let ghost first = stream_view(*state, *budget, outcome);
    let mut i: usize = 0;
    assert(units@.skip(0) == units@);
    while i < units.len()
        invariant
            i <= units.len(),
            state.wf(*budget),
            first == (StreamView {
                attempt: old(state)@,
                budget: *old(budget),
                semantic: false,
                failure: None,
            }),
            first.projected(units@) == stream_view(*state, *budget, outcome).projected(
                units@.skip(i as int),
            ),
        decreases units.len() - i,
    {
        let ghost rest = units@.skip(i as int);
        assert(rest[0] == units@[i as int]);
        assert(rest.skip(1) == units@.skip(i + 1));
        let unit = &units[i];
        let semantic_before = state.semantic_seen || outcome.semantic;
        match unit.terminal {
            Some(terminal) => {
                state.semantic_terminal = Some(native_terminal(terminal));
                state.terminal_seen = true;
            },
            None => {},
        }
        if unit.failure.is_some() && !semantic_before {
            outcome.failure = copied_error(&unit.failure);
        }
        outcome.semantic = outcome.semantic || unit.semantic;
        match push_native_prefix_unit(
            state,
            budget,
            unit.bytes.as_slice(),
            unit.terminal.is_some(),
        ) {
            Ok(()) => {},
            Err(error) => return (Err(error), outcome),
        }
        i += 1;
    }
    (Ok(()), outcome)
}

fn push_rendered(
    state: &mut ProductionAttemptState,
    budget: &mut StreamBudget,
    outcome: &StreamOutcome,
    pieces: &Vec<Vec<u8>>,
) -> (r: Result<(), String>)
    requires
        old(state).wf(*old(budget)),
    ensures
        final(state).wf(*final(budget)),
        (result_view(r), stream_view(*final(state), *final(budget), *outcome)) == stream_view(
            *old(state),
            *old(budget),
            *outcome,
        ).rendered(pieces@),
{
    let ghost first = stream_view(*state, *budget, *outcome);
    let mut i: usize = 0;
    assert(pieces@.skip(0) == pieces@);
    while i < pieces.len()
        invariant
            i <= pieces.len(),
            state.wf(*budget),
            first == stream_view(*old(state), *old(budget), *outcome),
            first.rendered(pieces@) == stream_view(*state, *budget, *outcome).rendered(
                pieces@.skip(i as int),
            ),
        decreases pieces.len() - i,
    {
        let ghost rest = pieces@.skip(i as int);
        assert(rest[0] == pieces@[i as int]);
        assert(rest.skip(1) == pieces@.skip(i + 1));
        match push_prefix_bytes(state, budget, pieces[i].as_slice()) {
            Ok(()) => {},
            Err(error) => return Err(error),
        }
        i += 1;
    }
    Ok(())
}

fn observe_event(
    state: &mut ProductionAttemptState,
    budget: &StreamBudget,
    outcome: &mut StreamOutcome,
    event: &DecodedEvent,
)
    ensures
        final(state).prefix == old(state).prefix,
        final(state).decoder_budget == old(state).decoder_budget,
        stream_view(*final(state), *budget, *final(outcome)) == stream_view(
            *old(state),
            *budget,
            *old(outcome),
        ).observed(*event),
{
    state.semantic_terminal = observe_semantic_terminal(state.semantic_terminal, &event.event);
    match &event.event {
        ModelEvent::ResponseFailed { error } => {
            if !state.semantic_seen && !outcome.semantic {
                outcome.failure = Some(error.copied());
            }
        },
        _ => {},
    }
}

fn decode_event(
    state: &mut ProductionAttemptState,
    budget: &mut StreamBudget,
    outcome: &mut StreamOutcome,
    event: &DecodedEvent,
) -> (r: Result<(), String>)
    requires
        old(state).wf(*old(budget)),
    ensures
        final(state).wf(*final(budget)),
        (result_view(r), stream_view(*final(state), *final(budget), *final(outcome)))
            == stream_view(*old(state), *old(budget), *old(outcome)).decoded_one(*event),
{
    observe_event(state, budget, outcome, event);
    match push_rendered(state, budget, outcome, &event.rendered) {
        Ok(()) => {},
        Err(error) => return Err(error),
    }
    if event.render_error.is_some() {
        return Err("client stream event is not representable".to_owned());
    }
    outcome.semantic = outcome.semantic || event.semantic;
    let last = match event.event {
        ModelEvent::ResponseCompleted | ModelEvent::ResponseFailed { .. } => true,
        _ => false,
    };
    state.terminal_seen = state.terminal_seen || last;
    Ok(())
}

fn decode_events(
    state: &mut ProductionAttemptState,
    budget: &mut StreamBudget,
    events: &Vec<DecodedEvent>,
) -> (r: (Result<(), String>, StreamOutcome))
    requires
        old(state).wf(*old(budget)),
    ensures
        final(state).wf(*final(budget)),
        (result_view(r.0), stream_view(*final(state), *final(budget), r.1)) == (StreamView {
            attempt: old(state)@,
            budget: *old(budget),
            semantic: false,
            failure: None,
        }).decoded(events@),
{
    let mut outcome = StreamOutcome { semantic: false, failure: None };
    let ghost first = stream_view(*state, *budget, outcome);
    let mut i: usize = 0;
    assert(events@.skip(0) == events@);
    while i < events.len()
        invariant
            i <= events.len(),
            state.wf(*budget),
            first == (StreamView {
                attempt: old(state)@,
                budget: *old(budget),
                semantic: false,
                failure: None,
            }),
            first.decoded(events@) == stream_view(*state, *budget, outcome).decoded(
                events@.skip(i as int),
            ),
        decreases events.len() - i,
    {
        let ghost rest = events@.skip(i as int);
        assert(rest[0] == events@[i as int]);
        assert(rest.skip(1) == events@.skip(i + 1));
        match decode_event(state, budget, &mut outcome, &events[i]) {
            Ok(()) => {},
            Err(error) => return (Err(error), outcome),
        }
        i += 1;
    }
    (Ok(()), outcome)
}

impl AttemptView {
    /// Reads projected stream output; `None` is output that the projector could not read.
    pub open spec fn projecting(self, budget: StreamBudget, units: Option<Seq<NativeUnit>>) -> (
        bool,
        StreamView,
    ) {
        let start = StreamView { attempt: self, budget, semantic: false, failure: None };
        match units {
            None => (false, start),
            Some(units) => {
                let (r, seen) = start.projected(units);
                (r is Ok, seen)
            },
        }
    }

    /// Reads decoded stream output.
    pub open spec fn decoding(
        self,
        budget: StreamBudget,
        events: Seq<DecodedEvent>,
        end: DecodeEnd,
    ) -> (bool, StreamView) {
        let start = StreamView { attempt: self, budget, semantic: false, failure: None };
        let (r, seen) = start.decoded(events);
        (r is Ok && end is Complete, seen)
    }

    /// What a piece of stream output leads to. `finished` is `None` before the end of the stream,
    /// and says at the end whether the decoder found the response whole.
    pub open spec fn after_stream(
        self,
        read: (bool, StreamView),
        status: u16,
        finished: Option<bool>,
    ) -> Step {
        let seen = read.1;
        if !read.0 {
            Step {
                action: seen.attempt.protocol_failing(),
                attempt: seen.attempt,
                budget: seen.budget,
            }
        } else {
            let attempt = seen.settled();
            let budget = seen.budget;
            match seen.failure {
                Some(error) => Step {
                    action: attempt.model_failing(error, status, true),
                    attempt,
                    budget,
                },
                None => match finished {
                    None => if seen.semantic {
                        let (action, attempt) = attempt.ready(
                            semantic_facts(status),
                            200,
                            "text/event-stream"@,
                            false,
                        );
                        Step { action, attempt, budget }
                    } else {
                        Step { action: Ok(ActionView::Pending), attempt, budget }
                    },
                    Some(whole) => if !attempt.semantic_seen {
                        Step { action: attempt.protocol_failing(), attempt, budget }
                    } else if attempt.native_output {
                        let (action, attempt) = attempt.ready(
                            semantic_facts(status),
                            200,
                            "text/event-stream"@,
                            true,
                        );
                        Step { action, attempt, budget }
                    } else if !attempt.decoder {
                        Step {
                            action: Err("native response decoder is unavailable"@),
                            attempt,
                            budget,
                        }
                    } else {
                        let closed = AttemptView { decoder: false, ..attempt };
                        if !whole {
                            Step {
                                action: Err("native response terminal is malformed"@),
                                attempt: closed,
                                budget,
                            }
                        } else {
                            let (action, attempt) = closed.ready(
                                semantic_facts(status),
                                200,
                                "text/event-stream"@,
                                true,
                            );
                            Step { action, attempt, budget }
                        }
                    },
                },
            }
        }
    }
}

fn finish_stream_step(
    state: &mut ProductionAttemptState,
    budget: &StreamBudget,
    read: bool,
    outcome: StreamOutcome,
    status: u16,
    finished: Option<bool>,
) -> (r: Result<PrecommitAction, String>)
    requires
        old(state).wf(*budget),
    ensures
        final(state).wf(*budget),
        (Step { action: action_view(r), attempt: final(state)@, budget: *budget }) == old(
            state,
        )@.after_stream((read, stream_view(*old(state), *budget, outcome)), status, finished),
{
    if !read {
        return state_failure(state, RawAttemptFailure::Protocol, 502);
    }
    state.semantic_seen = state.semantic_seen || outcome.semantic;
    match &outcome.failure {
        Some(error) => return classify_model_error(state, error, status, true),
        None => {},
    }
    match finished {
        None => {
            if outcome.semantic {
                take_semantic(state, status, 200, "text/event-stream", false)
            } else {
                Ok(PrecommitAction::Pending)
            }
        },
        Some(whole) => {
            if !state.semantic_seen {
                return state_failure(state, RawAttemptFailure::Protocol, 502);
            }
            if !state.native_output {
                if !state.decoder {
                    return Err("native response decoder is unavailable".to_owned());
                }
                state.decoder = false;
                if !whole {
                    return Err("native response terminal is malformed".to_owned());
                }
            }
            take_semantic(state, status, 200, "text/event-stream", true)
        },
    }
}

pub open spec fn units_view(units: Option<Vec<NativeUnit>>) -> Option<Seq<NativeUnit>> {
    match units {
        Some(units) => Some(units@),
        None => None,
    }
}

/// The projector has read bytes of a stream, or its end.
pub fn on_stream_units(
    state: &mut ProductionAttemptState,
    budget: &mut StreamBudget,
    units: &Option<Vec<NativeUnit>>,
    end_stream: bool,
) -> (r: Result<PrecommitAction, String>)
    requires
        old(state).wf(*old(budget)),
        old(state).response_status is Some,
        old(state).native_output,
    ensures
        final(state).wf(*final(budget)),
        (Step { action: action_view(r), attempt: final(state)@, budget: *final(budget) }) == old(
            state,
        )@.after_stream(
            old(state)@.projecting(*old(budget), units_view(*units)),
            old(state).response_status->0,
            if end_stream {
                Some(true)
            } else {
                None
            },
        ),
{
    let status: u16 = match state.response_status {
        Some(status) => status,
        None => 0,
    };
    let (read, outcome) = match units {
        Some(units) => {
            let (r, outcome) = project_units(state, budget, units);
            (r.is_ok(), outcome)
        },
        None => (false, StreamOutcome { semantic: false, failure: None }),
    };
    finish_stream_step(
        state,
        budget,
        read,
        outcome,
        status,
        if end_stream {
            Some(true)
        } else {
            None
        },
    )
}

/// The decoder has read bytes of a stream, or its end.
pub fn on_stream_events(
    state: &mut ProductionAttemptState,
    budget: &mut StreamBudget,
    report: &DecodeReport,
    finished: Option<bool>,
) -> (r: Result<PrecommitAction, String>)
    requires
        old(state).wf(*old(budget)),
        old(state).response_status is Some,
        !old(state).native_output,
    ensures
        final(state).wf(*final(budget)),
        (Step { action: action_view(r), attempt: final(state)@, budget: *final(budget) }) == old(
            state,
        )@.after_stream(
            old(state)@.decoding(*old(budget), report.events@, report.end),
            old(state).response_status->0,
            finished,
        ),
{
    let status: u16 = match state.response_status {
        Some(status) => status,
        None => 0,
    };
    let (r, outcome) = decode_events(state, budget, &report.events);
    let complete = match report.end {
        DecodeEnd::Complete => true,
        _ => false,
    };
    finish_stream_step(state, budget, r.is_ok() && complete, outcome, status, finished)
}

impl AttemptView {
    /// A response that could not be read as a whole.
    pub open spec fn unreadable(self, status: u16) -> ActionResult {
        self.failing(decode_failure(status, self.retry_after), decode_status(status))
    }

    /// Takes one unit of a whole native response.
    pub open spec fn whole_one(self, budget: StreamBudget, unit: NativeUnit) -> (
        Result<(), Seq<char>>,
        AttemptView,
        StreamBudget,
    ) {
        AttemptView {
            semantic_seen: self.semantic_seen || unit.semantic,
            semantic_terminal: match unit.terminal {
                Some(outcome) => Some(native_end(outcome)),
                None => self.semantic_terminal,
            },
            ..self
        }.unit_pushed(budget, unit.bytes@, unit.terminal is Some)
    }

    /// Takes the units of a whole native response in order, with the first failure among them.
    pub open spec fn whole(
        self,
        budget: StreamBudget,
        units: Seq<NativeUnit>,
        failure: Option<ModelErrorView>,
    ) -> (Result<Option<ModelErrorView>, Seq<char>>, AttemptView, StreamBudget)
        decreases units.len(),
    {
        if units.len() == 0 {
            (Ok(failure), self, budget)
        } else {
            let (r, attempt, budget) = self.whole_one(budget, units[0]);
            match r {
                Err(error) => (Err(error), attempt, budget),
                Ok(()) => attempt.whole(
                    budget,
                    units.skip(1),
                    if failure is Some {
                        failure
                    } else {
                        error_view(units[0].failure)
                    },
                ),
            }
        }
    }

    /// What a whole native response leads to.
    pub open spec fn after_whole(
        self,
        budget: StreamBudget,
        units: Option<Seq<NativeUnit>>,
        status: u16,
    ) -> Step {
        match units {
            None => Step { action: self.protocol_failing(), attempt: self, budget },
            Some(units) => {
                let (r, attempt, budget) = self.whole(budget, units, None);
                match r {
                    Err(error) => Step { action: Err(error), attempt, budget },
                    Ok(Some(error)) => Step {
                        action: attempt.model_failing(error, status, false),
                        attempt,
                        budget,
                    },
                    Ok(None) => if !attempt.semantic_seen || attempt.semantic_terminal is None {
                        Step { action: attempt.protocol_failing(), attempt, budget }
                    } else {
                        let (action, attempt) = attempt.ready(
                            semantic_facts(status),
                            200,
                            "application/json"@,
                            false,
                        );
                        Step { action, attempt, budget }
                    },
                }
            },
        }
    }

    /// What a whole decoded response leads to. `fed` says whether the decoder took the end of the
    /// bytes, and `response` is what it made of them.
    pub open spec fn after_decoded(
        self,
        budget: StreamBudget,
        fed: bool,
        response: Option<DecodedResponse>,
        status: u16,
    ) -> Step {
        if !fed {
            Step { action: self.unreadable(status), attempt: self, budget }
        } else {
            let closed = AttemptView { decoder: false, ..self };
            match response {
                None => Step { action: closed.unreadable(status), attempt: closed, budget },
                Some(response) => {
                    let attempt = AttemptView {
                        semantic_terminal: response_end(response),
                        ..closed
                    };
                    match response.error {
                        Some(error) => Step {
                            action: attempt.model_failing(error@, status, false),
                            attempt,
                            budget,
                        },
                        None => match response.rendered {
                            Some(
                                RenderedClientResponse::Json {
                                    status: client_status,
                                    content_type,
                                    bytes,
                                },
                            ) => if !response.has_semantic_output
                                || !super::response::is_status(client_status) {
                                Step { action: attempt.protocol_failing(), attempt, budget }
                            } else {
                                let (r, attempt, budget) = attempt.pushed(budget, bytes@);
                                match r {
                                    Err(error) => Step { action: Err(error), attempt, budget },
                                    Ok(()) => {
                                        let (action, attempt) = attempt.ready(
                                            semantic_facts(status),
                                            client_status,
                                            content_type@,
                                            true,
                                        );
                                        Step { action, attempt, budget }
                                    },
                                }
                            },
                            _ => Step { action: attempt.protocol_failing(), attempt, budget },
                        },
                    }
                },
            }
        }
    }
}

/// A codec has read bytes of a response that is read as a whole.
pub fn on_plain_body_fed(state: &ProductionAttemptState, fed: bool) -> (r: Result<
    PrecommitAction,
    String,
>)
    requires
        state.response_status is Some,
    ensures
        action_view(r) == (if fed {
            Ok(ActionView::Pending)
        } else {
            state@.unreadable(state.response_status->0)
        }),
{
    if fed {
        return Ok(PrecommitAction::Pending);
    }
    match state.response_status {
        Some(status) => {
            let raw = response_decode_failure(status, state.retry_after);
            state_failure(state, raw, response_decode_local_status(status))
        },
        None => Ok(PrecommitAction::Pending),
    }
}

fn project_whole_unit(
    state: &mut ProductionAttemptState,
    budget: &mut StreamBudget,
    unit: &NativeUnit,
) -> (r: Result<(), String>)
    requires
        old(state).wf(*old(budget)),
    ensures
        final(state).wf(*final(budget)),
        (result_view(r), final(state)@, *final(budget)) == old(state)@.whole_one(
            *old(budget),
            *unit,
        ),
{
    state.semantic_seen = state.semantic_seen || unit.semantic;
    match unit.terminal {
        Some(terminal) => {
            state.semantic_terminal = Some(native_terminal(terminal));
        },
        None => {},
    }
    push_native_prefix_unit(state, budget, unit.bytes.as_slice(), unit.terminal.is_some())
}

fn project_whole(
    state: &mut ProductionAttemptState,
    budget: &mut StreamBudget,
    units: &Vec<NativeUnit>,
) -> (r: Result<Option<ModelError>, String>)
    requires
        old(state).wf(*old(budget)),
    ensures
        final(state).wf(*final(budget)),
        (
            match r {
                Ok(failure) => Ok(error_view(failure)),
                Err(error) => Err(error@),
            },
            final(state)@,
            *final(budget),
        ) == old(state)@.whole(*old(budget), units@, None),
{
    let mut failure: Option<ModelError> = None;
    let mut i: usize = 0;
    assert(units@.skip(0) == units@);
    while i < units.len()
        invariant
            i <= units.len(),
            state.wf(*budget),
            old(state)@.whole(*old(budget), units@, None) == state@.whole(
                *budget,
                units@.skip(i as int),
                error_view(failure),
            ),
        decreases units.len() - i,
    {
        let ghost rest = units@.skip(i as int);
        assert(rest[0] == units@[i as int]);
        assert(rest.skip(1) == units@.skip(i + 1));
        match project_whole_unit(state, budget, &units[i]) {
            Ok(()) => {},
            Err(error) => return Err(error),
        }
        if failure.is_none() {
            failure = copied_error(&units[i].failure);
        }
        i += 1;
    }
    Ok(failure)
}

/// The projector has read the whole of a native response.
pub fn on_plain_units(
    state: &mut ProductionAttemptState,
    budget: &mut StreamBudget,
    units: &Option<Vec<NativeUnit>>,
) -> (r: Result<PrecommitAction, String>)
    requires
        old(state).wf(*old(budget)),
        old(state).response_status is Some,
    ensures
        final(state).wf(*final(budget)),
        (Step { action: action_view(r), attempt: final(state)@, budget: *final(budget) }) == old(
            state,
        )@.after_whole(*old(budget), units_view(*units), old(state).response_status->0),
{
    let status: u16 = match state.response_status {
        Some(status) => status,
        None => 0,
    };
    let units = match units {
        Some(units) => units,
        None => return state_failure(state, RawAttemptFailure::Protocol, 502),
    };
    match project_whole(state, budget, units) {
        Ok(Some(error)) => return classify_model_error(state, &error, status, false),
        Ok(None) => {},
        Err(error) => return Err(error),
    }
    if !state.semantic_seen || state.semantic_terminal.is_none() {
        return state_failure(state, RawAttemptFailure::Protocol, 502);
    }
    take_semantic(state, status, 200, "application/json", false)
}

/// The decoder has read the whole of a response.
#[verifier::rlimit(60)]
pub fn on_plain_decoded(
    state: &mut ProductionAttemptState,
    budget: &mut StreamBudget,
    fed: bool,
    response: &Option<DecodedResponse>,
) -> (r: Result<PrecommitAction, String>)
    requires
        old(state).wf(*old(budget)),
        old(state).response_status is Some,
    ensures
        final(state).wf(*final(budget)),
        (Step { action: action_view(r), attempt: final(state)@, budget: *final(budget) }) == old(
            state,
        )@.after_decoded(*old(budget), fed, *response, old(state).response_status->0),
{
    let status: u16 = match state.response_status {
        Some(status) => status,
        None => 0,
    };
    if !fed {
        let raw = response_decode_failure(status, state.retry_after);
        return state_failure(state, raw, response_decode_local_status(status));
    }
    state.decoder = false;
    let response = match response {
        Some(response) => response,
        None => {
            let raw = response_decode_failure(status, state.retry_after);
            return state_failure(state, raw, response_decode_local_status(status));
        },
    };
    state.semantic_terminal = semantic_terminal_for_response(response);
    match &response.error {
        Some(error) => return classify_model_error(state, error, status, false),
        None => {},
    }
    if !response.has_semantic_output {
        return state_failure(state, RawAttemptFailure::Protocol, 502);
    }
    let (client_status, content_type, bytes) = match rendered_response_parts(&response.rendered) {
        Some(parts) => parts,
        None => return state_failure(state, RawAttemptFailure::Protocol, 502),
    };
    match push_prefix_bytes(state, budget, bytes.as_slice()) {
        Ok(()) => {},
        Err(error) => return Err(error),
    }
    take_semantic(state, status, client_status, content_type.as_str(), true)
}

/// The status, type and bytes of a response that was rendered as a whole.
pub fn rendered_response_parts<'a>(rendered: &'a Option<RenderedClientResponse>) -> (r: Option<
    (u16, &'a String, &'a Vec<u8>),
>)
    ensures
        match *rendered {
            Some(RenderedClientResponse::Json { status, content_type, bytes }) => if
                super::response::is_status(status) {
                r == Some((status, &content_type, &bytes))
            } else {
                r is None
            },
            _ => r is None,
        },
{
    match rendered {
        Some(RenderedClientResponse::Json { status, content_type, bytes }) => {
            if 100 <= *status && *status < 1000 {
                Some((*status, content_type, bytes))
            } else {
                None
            }
        },
        _ => None,
    }
}

/// The body that a client sees of a failed attempt. It says nothing of the upstream.
pub open spec fn failure_body() -> Seq<char> {
    "{\"error\":{\"code\":\"UPSTREAM_ATTEMPT_FAILED\",\"type\":\"upstream_error\"}}"@
}

impl AttemptView {
    /// What a classified failure leads to: the prefix is dropped and given back, and the client
    /// is to see the sanitized body alone.
    pub open spec fn after_failure(
        self,
        budget: StreamBudget,
        failure: AttemptFailure,
        local_status: u16,
    ) -> Step {
        let failed = AttemptView { classified_failure: Some(failure), ..self };
        let body = vstd::utf8::encode_utf8(failure_body());
        if !budget.fits(body.len() as int) {
            Step { action: Err("stream memory budget exceeded"@), attempt: failed, budget }
        } else {
            let held = budget.holding(body.len() as int);
            let open = AttemptView { prefix_terminal_chunks: None, ..failed };
            match self.prefix {
                None => Step {
                    action: Err("response prefix owner was already transferred"@),
                    attempt: open,
                    budget: held,
                },
                Some(queue) => {
                    let cleared = QueueView { chunks: Seq::empty(), ..queue };
                    let attempt = AttemptView { prefix: Some(cleared), ..open };
                    Step {
                        action: Ok(
                            ActionView::Ready {
                                facts: facts_of_failure(failure),
                                readiness: ReadinessView {
                                    terminal_body: Some(body),
                                    ..attempt.readiness(
                                        cleared,
                                        local_status,
                                        "application/json"@,
                                        true,
                                    )
                                },
                            },
                        ),
                        attempt: attempt.emptied(),
                        budget: held.holding(-(flat(queue.chunks).len() as int)),
                    }
                },
            }
        }
    }
}

/// The outcome classifier has answered.
pub fn on_failure_classified(
    state: &mut ProductionAttemptState,
    budget: &mut StreamBudget,
    failure: AttemptFailure,
    local_status: u16,
) -> (r: Result<PrecommitAction, String>)
    requires
        old(state).wf(*old(budget)),
    ensures
        final(state).wf(*final(budget)),
        (Step { action: action_view(r), attempt: final(state)@, budget: *final(budget) }) == old(
            state,
        )@.after_failure(*old(budget), failure, local_status),
{
    let facts = failure_facts(&failure);
    state.classified_failure = Some(failure);
    let text = "{\"error\":{\"code\":\"UPSTREAM_ATTEMPT_FAILED\",\"type\":\"upstream_error\"}}";
    let body = vstd::slice::slice_to_vec(text.as_bytes());
    match budget.reserve(body.len()) {
        Ok(()) => {},
        Err(error) => return Err(error),
    }
    match state.prefix.take() {
        Some(mut queue) => {
            queue.clear_and_release(budget);
            state.prefix = Some(queue);
        },
        None => {},
    }
    state.prefix_terminal_chunks = None;
    match take_readiness(state, local_status, "application/json", true) {
        Ok(mut readiness) => {
            readiness.terminal_body = Some(body);
            Ok(PrecommitAction::Ready { facts, readiness })
        },
        Err(error) => Err(error),
    }
}

/// The facts of a reply that a filter gave in place of the upstream.
pub open spec fn local_reply_facts() -> FactsView {
    FactsView {
        error_class: Some("filter_local_reply"@),
        retryability: RetryabilityFact::NonRetryable,
        readiness: "local_reply"@,
        ..unknown_facts()
    }
}

/// Turns a local reply into a classified result of the attempt.
pub fn normalize_attempt_local_reply(state: &mut ProductionAttemptState, status: u16) -> (r: Result<
    PrecommitAction,
    String,
>)
    ensures
        (action_view(r), final(state)@) == old(state)@.ready(
            local_reply_facts(),
            status,
            "application/json"@,
            true,
        ),
{
    match take_readiness(state, status, "application/json", true) {
        Ok(readiness) => Ok(
            PrecommitAction::Ready {
                facts: ProviderClassificationFacts {
                    error_class: Some("filter_local_reply".to_owned()),
                    retryability: RetryabilityFact::NonRetryable,
                    http_status: None,
                    retry_after: None,
                    readiness: "local_reply".to_owned(),
                    model_event: None,
                    usage: None,
                    ended_at: None,
                },
                readiness,
            },
        ),
        Err(error) => Err(error),
    }
}

/// A streamed response is ready only once it has said something, and only where it reported no
/// failure before that.
pub proof fn streams_are_held_until_they_say_something(
    attempt: AttemptView,
    read: (bool, StreamView),
    status: u16,
    finished: Option<bool>,
)
    requires
        attempt.after_stream(read, status, finished).action matches Ok(ActionView::Ready { .. }),
    ensures
        read.0,
        read.1.settled().semantic_seen,
        read.1.failure is None,
{
}

/// A whole response is ready only once it has said something, and a native one only where it also
/// ended and reported no failure.
pub proof fn whole_responses_say_something(
    attempt: AttemptView,
    budget: StreamBudget,
    units: Seq<NativeUnit>,
    status: u16,
)
    requires
        attempt.after_whole(budget, Some(units), status).action matches Ok(
            ActionView::Ready { .. },
        ),
    ensures
        attempt.whole(budget, units, None).0 == Ok::<_, Seq<char>>(None::<ModelErrorView>),
        attempt.whole(budget, units, None).1.semantic_seen,
        attempt.whole(budget, units, None).1.semantic_terminal is Some,
{
}

/// Nothing that the upstream sent is in the reply to a failed attempt, and what was held of it is
/// given back.
pub proof fn failures_show_nothing_of_the_upstream(
    attempt: AttemptView,
    budget: StreamBudget,
    failure: AttemptFailure,
    local_status: u16,
)
    requires
        budget.wf(),
        attempt.prefix matches Some(queue) ==> flat(queue.chunks).len() <= budget.live,
        attempt.after_failure(budget, failure, local_status).action matches Ok(
            ActionView::Ready { .. },
        ),
    ensures
        ({
            let step = attempt.after_failure(budget, failure, local_status);
            let readiness = step.action->Ok_0->Ready_readiness;
            let body = vstd::utf8::encode_utf8(failure_body());
            &&& readiness.prefix.chunks.len() == 0
            &&& readiness.terminal_body == Some(body)
            &&& step.budget.live == budget.live + body.len() - flat(attempt.prefix->0.chunks).len()
        }),
{
}

} // verus!
