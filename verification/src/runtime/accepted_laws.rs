//! What a client gets of an accepted response, and what remains known of it.

use vstd::prelude::*;
use super::accepted::{
    accepted_response_head, end_label, final_facts, finalize_attempt_facts, joined, AcceptedEvent,
    AcceptedStepView,
};
use super::body::StreamBudget;
use super::facts::{Disposition, FactsView, ProviderClassificationFacts};
use super::response::{
    end_after, native_end, usage_fact, DecodeEnd, DecodedEvent, ModelUsage, NativeUnit,
    ProductionAttemptState, ProductionReadiness, ReadinessView, SemanticTerminalOutcome,
};
use super::stream_laws::{
    bytes_are_queued_behind_the_others, held, piece_bytes, rendered_bytes, unit_bytes,
};

verus! {

/// What is ready is sent as it is: the head under its status and type, for every decision that ends
/// in a response, and none for one that goes on.
pub proof fn heads_are_sent_as_they_are(
    readiness: &ProductionReadiness,
    disposition: Disposition,
    r: Result<(u16, String), String>,
)
    requires
        call_ensures(accepted_response_head, (readiness, disposition), r),
    ensures
        disposition == Disposition::Continue <==> r is Err,
        r matches Ok((status, content_type)) ==> status == readiness.response_status
            && content_type@ == readiness.content_type@,
{
}

/// Each event becomes the frame that it holds: encoded bytes are sent unchanged and end the stream
/// where they say so; a terminal event always ends it, with the body that was made ready or else
/// its own. A head sends nothing, and raw events are refused. Nothing else is changed but that the
/// ready body is spent.
pub proof fn events_become_their_frames(readiness: ReadinessView, event: AcceptedEvent)
    ensures
        ({
            let (step, after) = readiness.after_event(event);
            &&& event matches AcceptedEvent::Encoded { bytes, end_stream, provenance } ==> step
                == Ok::<_, Seq<char>>(
                AcceptedStepView::Frame { output: Some((bytes@, provenance)), end_stream },
            )
            &&& event matches AcceptedEvent::Terminal { body, provenance } ==> {
                &&& step matches Ok(AcceptedStepView::Frame { output, end_stream }) && end_stream
                    && (readiness.terminal_body matches Some(bytes) ==> output == Some(
                    (bytes, provenance),
                )) && (readiness.terminal_body is None && body is Some ==> output == Some(
                    (body->0@, provenance),
                )) && (readiness.terminal_body is None && body is None ==> output is None)
                &&& after.terminal_body is None
            }
            &&& event is Head ==> step == Ok::<_, Seq<char>>(AcceptedStepView::Nothing)
            &&& event is RawSse ==> step is Err
            &&& !(event is Terminal) ==> after == readiness
            &&& after.prefix == readiness.prefix
        }),
{
}

/// Bytes of a stream go on to the codec that reads it, the projector first; a response that does not
/// stream has no more bytes. Without a codec the end of the upstream is the end for the client.
pub proof fn streams_are_read_on(readiness: ReadinessView)
    ensures
        ({
            let body = readiness.after_event(AcceptedEvent::Body).0;
            let end = readiness.after_event(AcceptedEvent::EndStream).0;
            let codec = readiness.projector || (readiness.decoder && readiness.renderer);
            &&& readiness.streaming && codec ==> body == Ok::<_, Seq<char>>(
                AcceptedStepView::Feed { projector: readiness.projector, end_stream: false },
            ) && end == Ok::<_, Seq<char>>(
                AcceptedStepView::Feed { projector: readiness.projector, end_stream: true },
            )
            &&& !readiness.streaming || !codec ==> body is Err
            &&& !readiness.projector && !readiness.decoder ==> end == Ok::<_, Seq<char>>(
                AcceptedStepView::Frame { output: None, end_stream: true },
            )
            &&& (readiness.projector || readiness.decoder) && !(readiness.streaming && codec)
                ==> end is Err
        }),
{
}

proof fn lemma_gathered(
    readiness: ReadinessView,
    units: Seq<NativeUnit>,
    bytes: Seq<u8>,
    ended: bool,
)
    ensures
        ({
            let (r, seen) = readiness.gathered(units, bytes, ended);
            &&& r is Ok <==> (units.len() == 0 || (!ended && forall|i: int|
                0 <= i < units.len() - 1 ==> (#[trigger] units[i]).terminal is None))
            &&& r matches Ok((all, ends)) ==> {
                &&& all == bytes + unit_bytes(units)
                &&& ends == if units.len() == 0 {
                    ended
                } else {
                    units.last().terminal is Some
                }
                &&& seen == (ReadinessView {
                    semantic_terminal: if units.len() > 0 && units.last().terminal is Some {
                        Some(native_end(units.last().terminal->0))
                    } else {
                        readiness.semantic_terminal
                    },
                    ..readiness
                })
            }
        }),
    decreases units.len(),
{
    if units.len() == 0 {
        assert(bytes + unit_bytes(units) =~= bytes);
    } else if !ended {
        let unit = units[0];
        let rest = units.skip(1);
        let next = ReadinessView {
            semantic_terminal: match unit.terminal {
                Some(outcome) => Some(native_end(outcome)),
                None => readiness.semantic_terminal,
            },
            ..readiness
        };
        lemma_gathered(next, rest, bytes + unit.bytes@, unit.terminal is Some);
        assert((bytes + unit.bytes@) + unit_bytes(rest) =~= bytes + (unit.bytes@ + unit_bytes(
            rest,
        )));
        assert forall|i: int| 1 <= i < units.len() implies #[trigger] units[i] == rest[i - 1] by {}
        if rest.len() > 0 {
            assert(rest.last() == units.last());
            if forall|i: int| 0 <= i < rest.len() - 1 ==> (#[trigger] rest[i]).terminal is None {
                assert forall|i: int| 1 <= i < units.len() - 1 implies (
                #[trigger] units[i]).terminal is None by {
                    assert(rest[i - 1].terminal is None);
                }
            }
            if forall|i: int| 0 <= i < units.len() - 1 ==> (#[trigger] units[i]).terminal is None {
                assert(units[0].terminal is None);
                assert forall|i: int| 0 <= i < rest.len() - 1 implies (#[trigger] rest[i]).terminal
                    is None by {
                    assert(units[i + 1].terminal is None);
                }
            }
        }
    }
}

/// Units of an accepted stream: their bytes are queued behind the others in their order. Only the
/// last may end the stream; where it does, its last byte ends it for the client, or a frame of its
/// own where there is no byte. Anything behind an end, or output that could not be read, fails and
/// sends nothing.
pub proof fn units_are_passed_on_whole(
    readiness: ReadinessView,
    budget: StreamBudget,
    units: Seq<NativeUnit>,
)
    requires
        budget.live <= budget.limit,
        readiness.prefix.max_chunk_bytes > 0,
        held(readiness.prefix).len() <= readiness.prefix.max_bytes,
    ensures
        ({
            let (step, after, left) = readiness.after_units(budget, Some(units));
            let bytes = unit_bytes(units);
            let ends = units.len() > 0 && units.last().terminal is Some;
            let room = budget.live + bytes.len() <= budget.limit && held(readiness.prefix).len()
                + bytes.len() <= readiness.prefix.max_bytes;
            let clean = forall|i: int|
                0 <= i < units.len() - 1 ==> (#[trigger] units[i]).terminal is None;
            &&& step is Ok <==> clean && (bytes.len() == 0 || room)
            &&& step is Ok ==> held(after.prefix) == held(readiness.prefix) + bytes && left.live
                == budget.live + bytes.len()
            &&& step is Ok && bytes.len() > 0 ==> step == Ok::<_, Seq<char>>(
                AcceptedStepView::Nothing,
            ) && after.prefix_terminal_chunks == if ends {
                Some(after.prefix.chunks.len() as usize)
            } else {
                readiness.prefix_terminal_chunks
            }
            &&& step is Ok && bytes.len() == 0 ==> step == Ok::<_, Seq<char>>(
                if ends {
                    AcceptedStepView::Frame { output: None, end_stream: true }
                } else {
                    AcceptedStepView::Nothing
                },
            )
            &&& step is Ok && ends ==> after.semantic_terminal == Some(
                native_end(units.last().terminal->0),
            )
            &&& step is Ok && !ends ==> after.semantic_terminal == readiness.semantic_terminal
            &&& readiness.after_units(budget, None).0 is Err
            &&& !clean ==> after.prefix == readiness.prefix && left == budget
        }),
{
    lemma_gathered(readiness, units, Seq::empty(), false);
    assert(Seq::<u8>::empty() + unit_bytes(units) =~= unit_bytes(units));
    bytes_are_queued_behind_the_others(readiness.prefix, budget, unit_bytes(units));
    assert(held(readiness.prefix) + Seq::<u8>::empty() =~= held(readiness.prefix));
    if unit_bytes(units).len() == 0 {
        assert(unit_bytes(units) =~= Seq::<u8>::empty());
    }
    lemma_gathered_prefix(readiness, units, Seq::empty(), false);
}

proof fn lemma_gathered_prefix(
    readiness: ReadinessView,
    units: Seq<NativeUnit>,
    bytes: Seq<u8>,
    ended: bool,
)
    ensures
        readiness.gathered(units, bytes, ended).1.prefix == readiness.prefix,
    decreases units.len(),
{
    if units.len() > 0 && !ended {
        let unit = units[0];
        let next = ReadinessView {
            semantic_terminal: match unit.terminal {
                Some(outcome) => Some(native_end(outcome)),
                None => readiness.semantic_terminal,
            },
            ..readiness
        };
        lemma_gathered_prefix(next, units.skip(1), bytes + unit.bytes@, unit.terminal is Some);
    }
}

proof fn lemma_joined(pieces: Seq<Vec<u8>>)
    ensures
        joined(pieces) == piece_bytes(pieces),
    decreases pieces.len(),
{
    if pieces.len() > 0 {
        lemma_joined(pieces.skip(1));
    }
}

proof fn lemma_collected(readiness: ReadinessView, events: Seq<DecodedEvent>, bytes: Seq<u8>)
    ensures
        ({
            let (r, seen) = readiness.collected(events, bytes);
            &&& r is Ok <==> forall|i: int|
                0 <= i < events.len() ==> (#[trigger] events[i]).render_error is None
            &&& r matches Ok(all) ==> all == bytes + rendered_bytes(events)
            &&& seen == (ReadinessView { semantic_terminal: seen.semantic_terminal, ..readiness })
        }),
    decreases events.len(),
{
    if events.len() == 0 {
        assert(bytes + rendered_bytes(events) =~= bytes);
    } else {
        let event = events[0];
        let rest = events.skip(1);
        let next = ReadinessView {
            semantic_terminal: end_after(readiness.semantic_terminal, event.event),
            ..readiness
        };
        lemma_joined(event.rendered@);
        assert forall|i: int| 1 <= i < events.len() implies #[trigger] events[i] == rest[i
            - 1] by {}
        if event.render_error is None {
            let own = joined(event.rendered@);
            lemma_collected(next, rest, bytes + own);
            assert((bytes + own) + rendered_bytes(rest) =~= bytes + (own + rendered_bytes(rest)));
            if forall|i: int| 0 <= i < rest.len() ==> (#[trigger] rest[i]).render_error is None {
                assert forall|i: int| 0 <= i < events.len() implies (
                #[trigger] events[i]).render_error is None by {
                    if i > 0 {
                        assert(rest[i - 1].render_error is None);
                    }
                }
            }
            if forall|i: int| 0 <= i < events.len() ==> (#[trigger] events[i]).render_error
                is None {
                assert forall|i: int| 0 <= i < rest.len() implies (#[trigger] rest[i]).render_error
                    is None by {
                    assert(events[i + 1].render_error is None);
                }
            }
        } else {
            assert(events[0].render_error is Some);
        }
    }
}

/// Events of an accepted stream: what they were rendered to is queued behind the others in their
/// order, and ends the stream for the client where the decoder found the response whole. A stream
/// that ended without being whole, an event that cannot be shown, or bytes that could not be read
/// fail.
pub proof fn events_are_passed_on_whole(
    readiness: ReadinessView,
    budget: StreamBudget,
    events: Seq<DecodedEvent>,
    end: DecodeEnd,
    finished: Option<bool>,
)
    requires
        budget.live <= budget.limit,
        readiness.prefix.max_chunk_bytes > 0,
        held(readiness.prefix).len() <= readiness.prefix.max_bytes,
    ensures
        ({
            let (step, after, left) = readiness.after_events(budget, events, end, finished);
            let bytes = rendered_bytes(events);
            let room = budget.live + bytes.len() <= budget.limit && held(readiness.prefix).len()
                + bytes.len() <= readiness.prefix.max_bytes;
            let shown = forall|i: int|
                0 <= i < events.len() ==> (#[trigger] events[i]).render_error is None;
            &&& step is Ok <==> shown && end is Complete && (finished matches Some(whole) ==> whole
                && readiness.decoder) && (bytes.len() == 0 || room)
            &&& step is Ok ==> held(after.prefix) == held(readiness.prefix) + bytes && left.live
                == budget.live + bytes.len()
            &&& step is Ok && bytes.len() > 0 ==> step == Ok::<_, Seq<char>>(
                AcceptedStepView::Nothing,
            ) && after.prefix_terminal_chunks == if finished is Some {
                Some(after.prefix.chunks.len() as usize)
            } else {
                readiness.prefix_terminal_chunks
            }
            &&& step is Ok && bytes.len() == 0 ==> step == Ok::<_, Seq<char>>(
                if finished is Some {
                    AcceptedStepView::Frame { output: None, end_stream: true }
                } else {
                    AcceptedStepView::Nothing
                },
            )
            &&& step is Ok && finished is Some ==> !after.decoder
            &&& step is Ok && finished is None ==> after.decoder == readiness.decoder
        }),
{
    lemma_collected(readiness, events, Seq::empty());
    assert(Seq::<u8>::empty() + rendered_bytes(events) =~= rendered_bytes(events));
    bytes_are_queued_behind_the_others(readiness.prefix, budget, rendered_bytes(events));
    assert(held(readiness.prefix) + Seq::<u8>::empty() =~= held(readiness.prefix));
    if rendered_bytes(events).len() == 0 {
        assert(rendered_bytes(events) =~= Seq::<u8>::empty());
    }
}

/// What remains known of an attempt: when it ended, how its response ended, and its usage as far as
/// any was reported. Everything else is what was published, and nothing where nothing was.
pub proof fn what_was_published_remains(
    published: Option<FactsView>,
    end: Option<SemanticTerminalOutcome>,
    usage: Option<ModelUsage>,
    ended_at: u128,
)
    ensures
        ({
            let facts = final_facts(published, end, usage, ended_at);
            &&& facts.ended_at == Some(ended_at)
            &&& end == Some(SemanticTerminalOutcome::Complete) ==> facts.model_event == Some(
                "response_complete"@,
            )
            &&& end == Some(SemanticTerminalOutcome::Incomplete) ==> facts.model_event == Some(
                "response_incomplete"@,
            )
            &&& end == Some(SemanticTerminalOutcome::Failed) ==> facts.model_event == Some(
                "response_failed"@,
            )
            &&& end == Some(SemanticTerminalOutcome::Unknown) ==> facts.model_event == Some(
                "response_unknown"@,
            )
            &&& (usage matches Some(told) && (told.input_tokens is Some || told.output_tokens
                is Some || told.cache_read_tokens is Some || told.cache_write_tokens is Some
                || told.reasoning_tokens is Some)) ==> facts.usage == Some(usage_fact(usage->0))
            &&& published matches Some(before) ==> {
                &&& facts.error_class == before.error_class && facts.retryability
                    == before.retryability && facts.http_status == before.http_status
                    && facts.retry_after == before.retry_after && facts.readiness
                    == before.readiness
                &&& end is None ==> facts.model_event == before.model_event
                &&& usage is None ==> facts.usage == before.usage
                &&& (usage matches Some(told) && told.input_tokens is None && told.output_tokens
                    is None && told.cache_read_tokens is None && told.cache_write_tokens is None
                    && told.reasoning_tokens is None) ==> facts.usage == before.usage
            }
            &&& published is None ==> facts.error_class is None && facts.http_status is None
                && facts.retry_after is None && (end is None ==> facts.model_event is None)
        }),
{
}

/// The end and the usage that the accepted response reached go before those of the attempt.
pub proof fn accepted_ends_go_first(
    state: &ProductionAttemptState,
    readiness: Option<&ProductionReadiness>,
    published: Option<&ProviderClassificationFacts>,
    readiness_usage: Option<ModelUsage>,
    state_usage: Option<ModelUsage>,
    ended_at: u128,
    r: ProviderClassificationFacts,
)
    requires
        call_ensures(
            finalize_attempt_facts,
            (state, readiness, published, readiness_usage, state_usage, ended_at),
            r,
        ),
    ensures
        (readiness matches Some(ready) && ready.semantic_terminal is Some) ==> r@.model_event
            == Some(end_label(readiness->0.semantic_terminal->0)),
        (readiness is None || readiness->0.semantic_terminal is None)
            && state.semantic_terminal is Some ==> r@.model_event == Some(
            end_label(state.semantic_terminal->0),
        ),
        (readiness_usage matches Some(told) && told.output_tokens is Some) ==> r@.usage == Some(
            usage_fact(readiness_usage->0),
        ),
        readiness_usage is None && (state_usage matches Some(told) && told.output_tokens is Some)
            ==> r@.usage == Some(usage_fact(state_usage->0)),
        r@.ended_at == Some(ended_at),
        published matches Some(facts) ==> r@.error_class == facts@.error_class,
{
}

/// A chunk is sent from the front of the prefix, and what is left is the rest of it. It ends the
/// stream exactly where it is the last of the chunks that lead to the end.
pub proof fn chunks_are_sent_from_the_front(readiness: ReadinessView)
    ensures
        ({
            let (sent, rest) = readiness.popped();
            &&& sent is None <==> readiness.prefix.chunks.len() == 0
            &&& sent is None ==> rest == readiness
            &&& sent matches Some((bytes, ends)) ==> {
                &&& bytes == readiness.prefix.chunks[0]
                &&& rest.prefix.chunks == readiness.prefix.chunks.skip(1)
                &&& ends <==> (readiness.prefix_terminal_chunks matches Some(n) && n <= 1)
                &&& ends ==> rest.prefix_terminal_chunks is None
                &&& (readiness.prefix_terminal_chunks matches Some(n) && n > 1) ==> (
                rest.prefix_terminal_chunks matches Some(m) && m + 1
                    == readiness.prefix_terminal_chunks->0)
                &&& readiness.prefix_terminal_chunks is None ==> rest.prefix_terminal_chunks is None
                &&& rest.prefix_eos_pending == readiness.prefix_eos_pending && rest.terminal_body
                    == readiness.terminal_body
            }
        }),
{
}

} // verus!
