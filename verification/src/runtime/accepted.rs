//! What is sent to the client once a response is accepted, and the facts that remain of it.

use vstd::prelude::*;
use super::body::{flat, push_queue_bytes, QueueView, StreamBudget};
use super::facts::{Disposition, FactsView, ProviderClassificationFacts, unknown_facts};
use super::precommit::units_view;
use super::response::{
    bytes_view, end_after, model_usage_fact, native_end, native_terminal,
    observe_semantic_terminal, usage_fact, DecodeEnd, DecodeReport, DecodedEvent, ModelUsage,
    NativeUnit, ProductionAttemptState, ProductionReadiness, ReadinessView, RenderError,
    SemanticTerminalOutcome,
};

verus! {

#[derive(Clone, Copy, Debug, PartialEq, Eq, Structural)]
pub enum SemanticProvenance {
    NonSemantic,
    ProducesSemantic,
}

/// An event of an accepted response.
#[derive(Debug)]
pub enum AcceptedEvent {
    /// The response ends here, with an optional body.
    Terminal { body: Option<Vec<u8>>, provenance: SemanticProvenance },
    /// Bytes that were already encoded for the client.
    Encoded { bytes: Vec<u8>, end_stream: bool, provenance: SemanticProvenance },
    Head,
    Body,
    EndStream,
    RawSse,
}

/// One frame for the client.
#[derive(Debug)]
pub struct AcceptedBodyFrame {
    pub output: Option<(Vec<u8>, SemanticProvenance)>,
    pub end_stream: bool,
}

/// What to do next with an accepted response.
#[derive(Debug)]
pub enum AcceptedStep {
    Frame(AcceptedBodyFrame),
    Nothing,
    Feed { projector: bool, end_stream: bool },
}

pub enum AcceptedStepView {
    Frame { output: Option<(Seq<u8>, SemanticProvenance)>, end_stream: bool },
    Nothing,
    Feed { projector: bool, end_stream: bool },
}

pub open spec fn output_view(output: Option<(Vec<u8>, SemanticProvenance)>) -> Option<
    (Seq<u8>, SemanticProvenance),
> {
    match output {
        Some((bytes, provenance)) => Some((bytes@, provenance)),
        None => None,
    }
}

impl View for AcceptedStep {
    type V = AcceptedStepView;

    open spec fn view(&self) -> AcceptedStepView {
        match *self {
            AcceptedStep::Frame(frame) => AcceptedStepView::Frame {
                output: output_view(frame.output),
                end_stream: frame.end_stream,
            },
            AcceptedStep::Nothing => AcceptedStepView::Nothing,
            AcceptedStep::Feed { projector, end_stream } => AcceptedStepView::Feed {
                projector,
                end_stream,
            },
        }
    }
}

pub open spec fn step_view(r: Result<AcceptedStep, String>) -> Result<AcceptedStepView, Seq<char>> {
    match r {
        Ok(step) => Ok(step@),
        Err(error) => Err(error@),
    }
}

/// The frame that only ends the stream.
pub open spec fn end_frame() -> AcceptedStepView {
    AcceptedStepView::Frame { output: None, end_stream: true }
}

/// The label of a response's end.
pub open spec fn end_label(outcome: SemanticTerminalOutcome) -> Seq<char> {
    match outcome {
        SemanticTerminalOutcome::Complete => "response_complete"@,
        SemanticTerminalOutcome::Incomplete => "response_incomplete"@,
        SemanticTerminalOutcome::Failed => "response_failed"@,
        SemanticTerminalOutcome::Unknown => "response_unknown"@,
    }
}

pub open spec fn is_empty_usage(usage: ModelUsage) -> bool {
    usage.input_tokens is None && usage.output_tokens is None && usage.cache_read_tokens is None
        && usage.cache_write_tokens is None && usage.reasoning_tokens is None
}

/// The facts that remain of an attempt: what was published, the response's end as far as it is
/// known, and the usage as far as any was reported.
pub open spec fn final_facts(
    published: Option<FactsView>,
    end: Option<SemanticTerminalOutcome>,
    usage: Option<ModelUsage>,
    ended_at: u128,
) -> FactsView {
    let base = match published {
        Some(facts) => facts,
        None => unknown_facts(),
    };
    FactsView {
        model_event: match end {
            Some(outcome) => Some(end_label(outcome)),
            None => base.model_event,
        },
        usage: match usage {
            Some(usage) => if is_empty_usage(usage) {
                base.usage
            } else {
                Some(usage_fact(usage))
            },
            None => base.usage,
        },
        ended_at: Some(ended_at),
        ..base
    }
}

/// The facts of an ended attempt. The end that the accepted response reached goes before the one
/// that the attempt had reached; so does the usage that its projector counted.
pub fn finalize_attempt_facts(
    state: &ProductionAttemptState,
    readiness: Option<&ProductionReadiness>,
    published: Option<&ProviderClassificationFacts>,
    readiness_usage: Option<ModelUsage>,
    state_usage: Option<ModelUsage>,
    ended_at: u128,
) -> (r: ProviderClassificationFacts)
    ensures
        r@ == final_facts(
            match published {
                Some(facts) => Some(facts@),
                None => None,
            },
            match readiness {
                Some(readiness) => if readiness.semantic_terminal is Some {
                    readiness.semantic_terminal
                } else {
                    state.semantic_terminal
                },
                None => state.semantic_terminal,
            },
            if readiness_usage is Some {
                readiness_usage
            } else {
                state_usage
            },
            ended_at,
        ),
{
    let mut facts = match published {
        Some(facts) => facts.copied(),
        None => ProviderClassificationFacts::default(),
    };
    let accepted_end = match readiness {
        Some(readiness) => readiness.semantic_terminal,
        None => None,
    };
    let end = match accepted_end {
        Some(outcome) => Some(outcome),
        None => state.semantic_terminal,
    };
    match end {
        Some(outcome) => {
            facts.model_event = Some(
                match outcome {
                    SemanticTerminalOutcome::Complete => "response_complete".to_owned(),
                    SemanticTerminalOutcome::Incomplete => "response_incomplete".to_owned(),
                    SemanticTerminalOutcome::Failed => "response_failed".to_owned(),
                    SemanticTerminalOutcome::Unknown => "response_unknown".to_owned(),
                },
            );
        },
        None => {},
    }
    let usage = match readiness_usage {
        Some(usage) => Some(usage),
        None => state_usage,
    };
    match usage {
        Some(usage) => {
            let empty = usage.input_tokens.is_none() && usage.output_tokens.is_none()
                && usage.cache_read_tokens.is_none() && usage.cache_write_tokens.is_none()
                && usage.reasoning_tokens.is_none();
            if !empty {
                facts.usage = Some(model_usage_fact(&usage));
            }
        },
        None => {},
    }
    facts.ended_at = Some(ended_at);
    facts
}

/// The status and content type to send, for a disposition that ends in a response.
pub fn accepted_response_head(readiness: &ProductionReadiness, disposition: Disposition) -> (r:
    Result<(u16, String), String>)
    ensures
        match disposition {
            Disposition::Continue => r matches Err(error) && error@
                == "Continue cannot emit a final response"@,
            _ => r matches Ok(head) && head.0 == readiness.response_status && head.1@
                == readiness.content_type@,
        },
{
    match disposition {
        Disposition::Accept | Disposition::Terminate => Ok(
            (readiness.response_status, readiness.content_type.clone()),
        ),
        Disposition::Continue => Err("Continue cannot emit a final response".to_owned()),
    }
}

impl ReadinessView {
    /// What an event of an accepted response leads to.
    pub open spec fn after_event(self, event: AcceptedEvent) -> (
        Result<AcceptedStepView, Seq<char>>,
        ReadinessView,
    ) {
        match event {
            AcceptedEvent::Terminal { body, provenance } => {
                let bytes = if self.terminal_body is Some {
                    self.terminal_body
                } else {
                    bytes_view(body)
                };
                (
                    Ok(
                        AcceptedStepView::Frame {
                            output: match bytes {
                                Some(bytes) => Some((bytes, provenance)),
                                None => None,
                            },
                            end_stream: true,
                        },
                    ),
                    ReadinessView { terminal_body: None, ..self },
                )
            },
            AcceptedEvent::Encoded { bytes, end_stream, provenance } => (
                Ok(
                    AcceptedStepView::Frame {
                        output: Some((bytes@, provenance)),
                        end_stream,
                    },
                ),
                self,
            ),
            AcceptedEvent::Head => (Ok(AcceptedStepView::Nothing), self),
            AcceptedEvent::Body => if self.streaming {
                (self.accepted_feed(false), self)
            } else {
                (Err("nonstream response had an unclassified transport tail"@), self)
            },
            AcceptedEvent::EndStream => if !self.decoder && !self.projector {
                (Ok(end_frame()), self)
            } else if self.streaming {
                (self.accepted_feed(true), self)
            } else {
                (Err("nonstream response had an unclassified transport tail"@), self)
            },
            AcceptedEvent::RawSse => (Err("raw SSE bypassed decoder ownership"@), self),
        }
    }

    /// The codec that reads on.
    pub open spec fn accepted_feed(self, end_stream: bool) -> Result<AcceptedStepView, Seq<char>> {
        if self.projector {
            Ok(AcceptedStepView::Feed { projector: true, end_stream })
        } else if !self.decoder {
            Err("accepted native decoder is unavailable"@)
        } else if !self.renderer {
            Err("accepted client renderer is unavailable"@)
        } else {
            Ok(AcceptedStepView::Feed { projector: false, end_stream })
        }
    }

    /// The bytes of projected units in order, and whether the last of them ended the response.
    /// Nothing may follow the unit that does.
    pub open spec fn gathered(self, units: Seq<NativeUnit>, bytes: Seq<u8>, ended: bool) -> (
        Result<(Seq<u8>, bool), Seq<char>>,
        ReadinessView,
    )
        decreases units.len(),
    {
        if units.len() == 0 {
            (Ok((bytes, ended)), self)
        } else if ended {
            (Err("native stream emitted bytes after terminal"@), self)
        } else {
            let unit = units[0];
            ReadinessView {
                semantic_terminal: match unit.terminal {
                    Some(outcome) => Some(native_end(outcome)),
                    None => self.semantic_terminal,
                },
                ..self
            }.gathered(units.skip(1), bytes + unit.bytes@, unit.terminal is Some)
        }
    }

    /// The bytes of rendered events in order.
    pub open spec fn collected(self, events: Seq<DecodedEvent>, bytes: Seq<u8>) -> (
        Result<Seq<u8>, Seq<char>>,
        ReadinessView,
    )
        decreases events.len(),
    {
        if events.len() == 0 {
            (Ok(bytes), self)
        } else {
            let event = events[0];
            let seen = ReadinessView {
                semantic_terminal: end_after(self.semantic_terminal, event.event),
                ..self
            };
            match event.render_error {
                Some(RenderError::NotRepresentable) => (
                    Err("accepted client stream event is not representable"@),
                    seen,
                ),
                Some(RenderError::Serialization) => (
                    Err("accepted stream serialization failed"@),
                    seen,
                ),
                None => seen.collected(events.skip(1), bytes + joined(event.rendered@)),
            }
        }
    }

    /// Queues output bytes; the last of them end the stream where `ended`.
    pub open spec fn queued(self, budget: StreamBudget, bytes: Seq<u8>, ended: bool) -> (
        Result<AcceptedStepView, Seq<char>>,
        ReadinessView,
        StreamBudget,
    ) {
        if bytes.len() == 0 {
            (
                Ok(
                    if ended {
                        end_frame()
                    } else {
                        AcceptedStepView::Nothing
                    },
                ),
                self,
                budget,
            )
        } else {
            let (r, queue, budget) = self.prefix.pushed(budget, bytes);
            let next = ReadinessView { prefix: queue, ..self };
            match r {
                Err(error) => (Err(error), next, budget),
                Ok(()) => (
                    Ok(AcceptedStepView::Nothing),
                    if ended {
                        ReadinessView {
                            prefix_terminal_chunks: Some(queue.chunks.len() as usize),
                            ..next
                        }
                    } else {
                        next
                    },
                    budget,
                ),
            }
        }
    }

    /// What projected output of an accepted stream leads to.
    pub open spec fn after_units(self, budget: StreamBudget, units: Option<Seq<NativeUnit>>) -> (
        Result<AcceptedStepView, Seq<char>>,
        ReadinessView,
        StreamBudget,
    ) {
        match units {
            None => (Err("accepted native stream is malformed"@), self, budget),
            Some(units) => {
                let (r, seen) = self.gathered(units, Seq::empty(), false);
                match r {
                    Err(error) => (Err(error), seen, budget),
                    Ok((bytes, ended)) => seen.queued(budget, bytes, ended),
                }
            },
        }
    }

    /// What decoded output of an accepted stream leads to. `finished` is `None` before the end of
    /// the stream, and says at the end whether the decoder found the response whole.
    pub open spec fn after_events(
        self,
        budget: StreamBudget,
        events: Seq<DecodedEvent>,
        end: DecodeEnd,
        finished: Option<bool>,
    ) -> (Result<AcceptedStepView, Seq<char>>, ReadinessView, StreamBudget) {
        let (r, seen) = self.collected(events, Seq::empty());
        match r {
            Err(error) => (Err(error), seen, budget),
            Ok(bytes) => match (end, finished) {
                (DecodeEnd::Malformed, _) => (
                    Err("accepted native stream is malformed"@),
                    seen,
                    budget,
                ),
                (DecodeEnd::DrainFailed, _) => (
                    Err("accepted native stream drain failed"@),
                    seen,
                    budget,
                ),
                (DecodeEnd::Complete, None) => seen.queued(budget, bytes, false),
                (DecodeEnd::Complete, Some(whole)) => {
                    let closed = ReadinessView { decoder: false, ..seen };
                    if !seen.decoder {
                        (Err("accepted native decoder is unavailable"@), seen, budget)
                    } else if !whole {
                        (Err("accepted native stream ended without terminal"@), closed, budget)
                    } else {
                        closed.queued(budget, bytes, true)
                    }
                },
            },
        }
    }

    /// The next chunk of the prefix: its bytes and whether it ends the stream; and what is left.
    pub open spec fn popped(self) -> (Option<(Seq<u8>, bool)>, ReadinessView) {
        if self.prefix.chunks.len() == 0 {
            (None, self)
        } else {
            let left = match self.prefix_terminal_chunks {
                Some(n) => if n <= 1 {
                    Some(0usize)
                } else {
                    Some((n - 1) as usize)
                },
                None => None,
            };
            let ends = left == Some(0usize);
            (
                Some((self.prefix.chunks[0], ends)),
                ReadinessView {
                    prefix: QueueView { chunks: self.prefix.chunks.skip(1), ..self.prefix },
                    prefix_terminal_chunks: if ends {
                        None
                    } else {
                        left
                    },
                    ..self
                },
            )
        }
    }
}

/// The bytes of pieces in order.
pub open spec fn joined(pieces: Seq<Vec<u8>>) -> Seq<u8>
    decreases pieces.len(),
{
    if pieces.len() == 0 {
        Seq::empty()
    } else {
        pieces[0]@ + joined(pieces.skip(1))
    }
}

pub fn encode_accepted_event(readiness: &mut ProductionReadiness, event: AcceptedEvent) -> (r:
    Result<AcceptedStep, String>)
    ensures
        (step_view(r), final(readiness)@) == old(readiness)@.after_event(event),
        final(readiness).prefix == old(readiness).prefix,
{
    match event {
        AcceptedEvent::Terminal { body, provenance } => {
            let bytes = match readiness.terminal_body.take() {
                Some(bytes) => Some(bytes),
                None => body,
            };
            let output = match bytes {
                Some(bytes) => Some((bytes, provenance)),
                None => None,
            };
            Ok(AcceptedStep::Frame(AcceptedBodyFrame { output, end_stream: true }))
        },
        AcceptedEvent::Encoded { bytes, end_stream, provenance } => Ok(
            AcceptedStep::Frame(
                AcceptedBodyFrame { output: Some((bytes, provenance)), end_stream },
            ),
        ),
        AcceptedEvent::Head => Ok(AcceptedStep::Nothing),
        AcceptedEvent::Body => {
            if readiness.streaming {
                accepted_codec(readiness, false)
            } else {
                Err("nonstream response had an unclassified transport tail".to_owned())
            }
        },
        AcceptedEvent::EndStream => {
            if !readiness.decoder && !readiness.projector {
                Ok(AcceptedStep::Frame(AcceptedBodyFrame { output: None, end_stream: true }))
            } else if readiness.streaming {
                accepted_codec(readiness, true)
            } else {
                Err("nonstream response had an unclassified transport tail".to_owned())
            }
        },
        AcceptedEvent::RawSse => Err("raw SSE bypassed decoder ownership".to_owned()),
    }
}

fn accepted_codec(readiness: &ProductionReadiness, end_stream: bool) -> (r: Result<
    AcceptedStep,
    String,
>)
    ensures
        step_view(r) == readiness@.accepted_feed(end_stream),
{
    if readiness.projector {
        return Ok(AcceptedStep::Feed { projector: true, end_stream });
    }
    if !readiness.decoder {
        return Err("accepted native decoder is unavailable".to_owned());
    }
    if !readiness.renderer {
        return Err("accepted client renderer is unavailable".to_owned());
    }
    Ok(AcceptedStep::Feed { projector: false, end_stream })
}

fn queue_accepted_stream_output(
    readiness: &mut ProductionReadiness,
    budget: &mut StreamBudget,
    bytes: &[u8],
    ended: bool,
) -> (r: Result<AcceptedStep, String>)
    requires
        old(readiness).prefix.wf(),
        old(budget).wf(),
    ensures
        final(readiness).prefix.wf(),
        final(budget).wf(),
        (step_view(r), final(readiness)@, *final(budget)) == old(readiness)@.queued(
            *old(budget),
            bytes@,
            ended,
        ),
{
    if bytes.len() > 0 {
        match push_queue_bytes(&mut readiness.prefix, budget, bytes) {
            Ok(()) => {},
            Err(error) => return Err(error),
        }
        if ended {
            readiness.prefix_terminal_chunks = Some(readiness.prefix.len());
        }
        return Ok(AcceptedStep::Nothing);
    }
    if ended {
        Ok(AcceptedStep::Frame(AcceptedBodyFrame { output: None, end_stream: true }))
    } else {
        Ok(AcceptedStep::Nothing)
    }
}

fn append_bytes(out: &mut Vec<u8>, bytes: &Vec<u8>)
    ensures
        final(out)@ == old(out)@ + bytes@,
{
    let mut i: usize = 0;
    let ghost before = out@;
    assert(before + bytes@.take(0) == before);
    while i < bytes.len()
        invariant
            i <= bytes.len(),
            out@ == before + bytes@.take(i as int),
        decreases bytes.len() - i,
    {
        out.push(bytes[i]);
        assert(before + bytes@.take(i + 1) == (before + bytes@.take(i as int)).push(
            bytes@[i as int],
        ));
        i += 1;
    }
    assert(bytes@.take(i as int) == bytes@);
}

/// The projector has read on in an accepted stream.
pub fn on_accepted_units(
    readiness: &mut ProductionReadiness,
    budget: &mut StreamBudget,
    units: &Option<Vec<NativeUnit>>,
) -> (r: Result<AcceptedStep, String>)
    requires
        old(readiness).prefix.wf(),
        old(budget).wf(),
    ensures
        final(readiness).prefix.wf(),
        final(budget).wf(),
        (step_view(r), final(readiness)@, *final(budget)) == old(readiness)@.after_units(
            *old(budget),
            units_view(*units),
        ),
{
    let list = match units {
        Some(list) => list,
        None => return Err("accepted native stream is malformed".to_owned()),
    };
    let mut output: Vec<u8> = Vec::new();
    let mut ended = false;
    let ghost first = readiness@;
    let ghost queue = readiness.prefix;
    let mut i: usize = 0;
    assert(list@.skip(0) == list@);
    while i < list.len()
        invariant
            i <= list.len(),
            units_view(*units) == Some(list@),
            first == old(readiness)@,
            queue == old(readiness).prefix,
            readiness.prefix == queue,
            *budget == *old(budget),
            queue.wf(),
            budget.wf(),
            first.gathered(list@, Seq::empty(), false) == readiness@.gathered(
                list@.skip(i as int),
                output@,
                ended,
            ),
        decreases list.len() - i,
    {
        let ghost rest = list@.skip(i as int);
        assert(rest[0] == list@[i as int]);
        assert(rest.skip(1) == list@.skip(i + 1));
        if ended {
            return Err("native stream emitted bytes after terminal".to_owned());
        }
        match list[i].terminal {
            Some(outcome) => {
                readiness.semantic_terminal = Some(native_terminal(outcome));
                ended = true;
            },
            None => {},
        }
        append_bytes(&mut output, &list[i].bytes);
        i += 1;
    }
    queue_accepted_stream_output(readiness, budget, output.as_slice(), ended)
}

fn append_pieces(out: &mut Vec<u8>, pieces: &Vec<Vec<u8>>)
    ensures
        final(out)@ == old(out)@ + joined(pieces@),
{
    let mut i: usize = 0;
    let ghost before = out@;
    assert(pieces@.skip(0) == pieces@);
    while i < pieces.len()
        invariant
            i <= pieces.len(),
            before + joined(pieces@) == out@ + joined(pieces@.skip(i as int)),
        decreases pieces.len() - i,
    {
        let ghost rest = pieces@.skip(i as int);
        assert(rest[0] == pieces@[i as int]);
        assert(rest.skip(1) == pieces@.skip(i + 1));
        let ghost sofar = out@;
        append_bytes(out, &pieces[i]);
        assert(sofar + (rest[0]@ + joined(rest.skip(1))) == out@ + joined(rest.skip(1)));
        i += 1;
    }
    assert(out@ + Seq::<u8>::empty() == out@);
}

/// The decoder has read on in an accepted stream.
pub fn on_accepted_events(
    readiness: &mut ProductionReadiness,
    budget: &mut StreamBudget,
    report: &DecodeReport,
    finished: Option<bool>,
) -> (r: Result<AcceptedStep, String>)
    requires
        old(readiness).prefix.wf(),
        old(budget).wf(),
    ensures
        final(readiness).prefix.wf(),
        final(budget).wf(),
        (step_view(r), final(readiness)@, *final(budget)) == old(readiness)@.after_events(
            *old(budget),
            report.events@,
            report.end,
            finished,
        ),
{
    let events = &report.events;
    let mut output: Vec<u8> = Vec::new();
    let ghost first = readiness@;
    let ghost queue = readiness.prefix;
    let mut i: usize = 0;
    assert(events@.skip(0) == events@);
    while i < events.len()
        invariant
            i <= events.len(),
            events@ == report.events@,
            first == old(readiness)@,
            queue == old(readiness).prefix,
            readiness.prefix == queue,
            *budget == *old(budget),
            queue.wf(),
            budget.wf(),
            first.collected(events@, Seq::empty()) == readiness@.collected(
                events@.skip(i as int),
                output@,
            ),
        decreases events.len() - i,
    {
        let ghost rest = events@.skip(i as int);
        assert(rest[0] == events@[i as int]);
        assert(rest.skip(1) == events@.skip(i + 1));
        let event = &events[i];
        readiness.semantic_terminal = observe_semantic_terminal(
            readiness.semantic_terminal,
            &event.event,
        );
        match event.render_error {
            Some(RenderError::NotRepresentable) => return Err(
                "accepted client stream event is not representable".to_owned(),
            ),
            Some(RenderError::Serialization) => return Err(
                "accepted stream serialization failed".to_owned(),
            ),
            None => {},
        }
        append_pieces(&mut output, &event.rendered);
        i += 1;
    }
    match report.end {
        DecodeEnd::Malformed => return Err("accepted native stream is malformed".to_owned()),
        DecodeEnd::DrainFailed => return Err("accepted native stream drain failed".to_owned()),
        DecodeEnd::Complete => {},
    }
    match finished {
        None => queue_accepted_stream_output(readiness, budget, output.as_slice(), false),
        Some(whole) => {
            if !readiness.decoder {
                return Err("accepted native decoder is unavailable".to_owned());
            }
            readiness.decoder = false;
            if !whole {
                return Err("accepted native stream ended without terminal".to_owned());
            }
            queue_accepted_stream_output(readiness, budget, output.as_slice(), true)
        },
    }
}

/// The next event of an accepted response that needs nothing from the upstream: a chunk of the
/// prefix, then the end that was still to be sent.
pub fn take_accepted_prefix(readiness: &mut ProductionReadiness) -> (r: Option<AcceptedEvent>)
    requires
        old(readiness).prefix.wf(),
    ensures
        final(readiness).prefix.wf(),
        ({
            let (chunk, rest) = old(readiness)@.popped();
            match chunk {
                Some((bytes, ends)) => {
                    &&& r matches Some(AcceptedEvent::Encoded { bytes: sent, end_stream, provenance })
                        && sent@ == bytes && end_stream == ends && provenance
                        == SemanticProvenance::ProducesSemantic
                    &&& final(readiness)@ == rest
                },
                None => if old(readiness)@.prefix_eos_pending {
                    &&& r matches Some(AcceptedEvent::EndStream)
                    &&& final(readiness)@ == (ReadinessView {
                        prefix_eos_pending: false,
                        ..old(readiness)@
                    })
                } else {
                    r is None && final(readiness)@ == old(readiness)@
                },
            }
        }),
{
    match readiness.prefix.pop_front() {
        Some(bytes) => {
            let mut end_stream = false;
            match readiness.prefix_terminal_chunks {
                Some(remaining) => {
                    if remaining <= 1 {
                        end_stream = true;
                        readiness.prefix_terminal_chunks = None;
                    } else {
                        readiness.prefix_terminal_chunks = Some(remaining - 1);
                    }
                },
                None => {},
            }
            Some(
                AcceptedEvent::Encoded {
                    bytes,
                    end_stream,
                    provenance: SemanticProvenance::ProducesSemantic,
                },
            )
        },
        None => {
            if readiness.prefix_eos_pending {
                readiness.prefix_eos_pending = false;
                return Some(AcceptedEvent::EndStream);
            }
            None
        },
    }
}

/// Everything that draining the prefix sends: each chunk and whether it ends the stream.
pub open spec fn drained(readiness: ReadinessView) -> Seq<(Seq<u8>, bool)>
    decreases readiness.prefix.chunks.len(),
{
    match readiness.popped() {
        (Some(sent), rest) => if rest.prefix.chunks.len() < readiness.prefix.chunks.len() {
            seq![sent] + drained(rest)
        } else {
            Seq::empty()
        },
        (None, _) => Seq::empty(),
    }
}

/// A prefix that holds the response's end is drained into exactly its chunks, in order, and the
/// last chunk alone ends the stream. One that does not hold it ends no stream.
pub proof fn draining_ends_the_stream_once(readiness: ReadinessView)
    requires
        readiness.prefix_terminal_chunks matches Some(n) ==> n == readiness.prefix.chunks.len()
            && n > 0,
    ensures
        drained(readiness).len() == readiness.prefix.chunks.len(),
        forall|i: int|
            0 <= i < drained(readiness).len() ==> (#[trigger] drained(readiness)[i]).0
                == readiness.prefix.chunks[i],
        forall|i: int|
            0 <= i < drained(readiness).len() ==> (#[trigger] drained(readiness)[i]).1 == (
            readiness.prefix_terminal_chunks is Some && i == drained(readiness).len() - 1),
    decreases readiness.prefix.chunks.len(),
{
    if readiness.prefix.chunks.len() > 0 {
        let (sent, rest) = readiness.popped();
        draining_ends_the_stream_once(rest);
        assert(drained(readiness) == seq![sent->0] + drained(rest));
        assert forall|i: int| 0 <= i < drained(readiness).len() implies (#[trigger] drained(
            readiness,
        )[i]).0 == readiness.prefix.chunks[i] by {
            if i > 0 {
                assert(drained(readiness)[i] == drained(rest)[i - 1]);
                assert(rest.prefix.chunks[i - 1] == readiness.prefix.chunks[i]);
            }
        }
        assert forall|i: int| 0 <= i < drained(readiness).len() implies (#[trigger] drained(
            readiness,
        )[i]).1 == (readiness.prefix_terminal_chunks is Some && i == drained(readiness).len()
            - 1) by {
            if i > 0 {
                assert(drained(readiness)[i] == drained(rest)[i - 1]);
            }
        }
    }
}

/// Output that ends an accepted stream reaches the client whole: the chunks that draining then
/// sends are the output's bytes, and the last of them alone ends the stream.
pub proof fn ending_output_is_sent_whole(
    readiness: ReadinessView,
    budget: StreamBudget,
    bytes: Seq<u8>,
)
    requires
        readiness.prefix.wf(),
        readiness.prefix.chunks.len() == 0,
        readiness.prefix_terminal_chunks is None,
        bytes.len() > 0,
        readiness.queued(budget, bytes, true).0 is Ok,
        super::body::cut(bytes, readiness.prefix.max_chunk_bytes as nat).len() <= usize::MAX,
    ensures
        ({
            let queued = readiness.queued(budget, bytes, true).1;
            let sent = drained(queued);
            &&& flat(queued.prefix.chunks) == bytes
            &&& sent.len() == queued.prefix.chunks.len()
            &&& forall|i: int|
                0 <= i < sent.len() ==> (#[trigger] sent[i]).0 == queued.prefix.chunks[i]
                    && sent[i].1 == (i == sent.len() - 1)
        }),
{
    let queued = readiness.queued(budget, bytes, true).1;
    let quantum = readiness.prefix.max_chunk_bytes as nat;
    let chunks = super::body::cut(bytes, quantum);
    super::body::cut_is_lossless(bytes, quantum);
    assert(chunks.take(chunks.len() as int) == chunks);
    assert(readiness.prefix.chunks + chunks == chunks);
    assert(chunks.len() > 0);
    draining_ends_the_stream_once(queued);
}

} // verus!
