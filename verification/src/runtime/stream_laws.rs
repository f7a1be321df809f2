//! What a response that is held back holds, byte for byte, and what of it is told when it is let go.

use vstd::prelude::*;
use super::body::{
    cut, cut_is_lossless, flat, flat_joins, DecoderBudgetView, QueueView, StreamBudget,
};
use super::facts::AttemptFailure;
use super::precommit::StreamView;
use super::response::{
    error_view, facts_of_failure, native_end, response_end, semantic_facts, ActionView,
    AttemptView, DecodedEvent, DecodedResponse, ModelErrorView, NativeUnit, RenderedClientResponse,
};

verus! {

/// The bytes that a queue holds.
pub open spec fn held(queue: QueueView) -> Seq<u8> {
    flat(queue.chunks)
}

/// Whether the queue and the budget of an attempt are in order.
pub open spec fn is_sound(attempt: AttemptView, budget: StreamBudget) -> bool {
    &&& budget.live <= budget.limit
    &&& attempt.prefix matches Some(queue) ==> queue.max_chunk_bytes > 0 && held(queue).len()
        <= queue.max_bytes && held(queue).len() <= budget.live
}

proof fn lemma_accepted(queue: QueueView, budget: StreamBudget, chunks: Seq<Seq<u8>>)
    requires
        budget.live <= budget.limit,
        held(queue).len() <= queue.max_bytes,
    ensures
        ({
            let taken = queue.accepted(budget, chunks);
            &&& taken <= chunks.len()
            &&& budget.live + flat(chunks.take(taken as int)).len() <= budget.limit
            &&& held(queue).len() + flat(chunks.take(taken as int)).len() <= queue.max_bytes
            &&& budget.live + flat(chunks).len() <= budget.limit && held(queue).len() + flat(
                chunks,
            ).len() <= queue.max_bytes ==> taken == chunks.len()
        }),
    decreases chunks.len(),
{
    let taken = queue.accepted(budget, chunks);
    if chunks.len() > 0 {
        let n = chunks[0].len() as int;
        assert(flat(chunks) == chunks[0] + flat(chunks.skip(1)));
        if taken > 0 {
            let more = QueueView { chunks: queue.chunks.push(chunks[0]), ..queue };
            let first = seq![chunks[0]];
            assert(first.skip(1) =~= Seq::<Seq<u8>>::empty());
            assert(flat(first) =~= chunks[0]) by {
                assert(flat(first) == first[0] + flat(first.skip(1)));
            }
            flat_joins(queue.chunks, first);
            assert(more.chunks =~= queue.chunks + first);
            lemma_accepted(more, budget.holding(n), chunks.skip(1));
            let rest = chunks.skip(1).take(taken as int - 1);
            assert(chunks.take(taken as int).skip(1) =~= rest);
            assert(flat(chunks.take(taken as int)) == chunks[0] + flat(rest));
        } else {
            assert(chunks.take(0) =~= Seq::<Seq<u8>>::empty());
        }
    } else {
        assert(chunks.take(0) =~= Seq::<Seq<u8>>::empty());
    }
}

/// Bytes are queued whole exactly where both the queue and the budget have room for them; then they
/// stand behind what the queue held, and the budget holds just so many more. Without room only a
/// first part of them is queued, and counted. No chunk is longer than a frame.
pub proof fn bytes_are_queued_behind_the_others(
    queue: QueueView,
    budget: StreamBudget,
    bytes: Seq<u8>,
)
    requires
        budget.live <= budget.limit,
        queue.max_chunk_bytes > 0,
        held(queue).len() <= queue.max_bytes,
    ensures
        ({
            let (r, after, left) = queue.pushed(budget, bytes);
            &&& r is Ok <==> budget.live + bytes.len() <= budget.limit && held(queue).len()
                + bytes.len() <= queue.max_bytes
            &&& r is Ok ==> held(after) == held(queue) + bytes && left.live == budget.live
                + bytes.len()
            &&& held(after).len() - held(queue).len() == left.live - budget.live
            &&& held(after).len() <= held(queue).len() + bytes.len() && held(after) == held(queue)
                + bytes.take(held(after).len() - held(queue).len())
            &&& left.limit == budget.limit && left.live <= left.limit
            &&& after.max_chunk_bytes == queue.max_chunk_bytes && after.max_bytes
                == queue.max_bytes && held(after).len() <= after.max_bytes
            &&& forall|i: int|
                queue.chunks.len() <= i < after.chunks.len() ==> 0 < (
                #[trigger] after.chunks[i]).len() <= queue.max_chunk_bytes
            &&& r is Ok && bytes.len() > 0 ==> after.chunks.len() > queue.chunks.len()
            &&& r is Ok && bytes.len() == 0 ==> after.chunks == queue.chunks
        }),
{
    let chunks = cut(bytes, queue.max_chunk_bytes as nat);
    let taken = queue.accepted(budget, chunks) as int;
    cut_is_lossless(bytes, queue.max_chunk_bytes as nat);
    lemma_accepted(queue, budget, chunks);
    flat_joins(queue.chunks, chunks.take(taken));
    flat_joins(chunks.take(taken), chunks.skip(taken));
    assert(chunks.take(taken) + chunks.skip(taken) =~= chunks);
    let part = flat(chunks.take(taken));
    assert(bytes.take(part.len() as int) =~= part);
    let after = queue.with(chunks.take(taken));
    assert forall|i: int| queue.chunks.len() <= i < after.chunks.len() implies 0 < (
    #[trigger] after.chunks[i]).len() <= queue.max_chunk_bytes by {
        assert(after.chunks[i] == chunks[i - queue.chunks.len()]);
    }
    if taken == chunks.len() {
        assert(chunks.take(taken) =~= chunks);
        if bytes.len() == 0 {
            assert(after.chunks =~= queue.chunks);
        } else if chunks.len() == 0 {
            assert(flat(chunks) =~= Seq::<u8>::empty());
        }
    }
}

/// A frame is charged before it is read: the account then covers at least twice the bytes that were
/// read, and eight more, never more than its ceiling; the budget holds what the account grew by. A
/// frame that cannot be charged changes nothing.
pub proof fn frames_are_charged_before_they_are_read(
    account: DecoderBudgetView,
    budget: StreamBudget,
    bytes: usize,
)
    requires
        account.wf(),
        budget.live <= budget.limit,
    ensures
        ({
            let (r, after, left) = account.charged(budget, bytes);
            &&& r is Ok ==> {
                &&& after.raw_bytes == account.raw_bytes + bytes
                &&& after.raw_bytes <= account.ceiling
                &&& after.raw_bytes > 0 ==> after.charged_bytes >= 2 * after.raw_bytes + 8
                &&& after.charged_bytes >= account.charged_bytes
                &&& after.charged_bytes <= 2 * account.ceiling + 8 || after.charged_bytes
                    == account.charged_bytes
                &&& left.live - budget.live == after.charged_bytes - account.charged_bytes
                &&& left.live <= left.limit
                &&& after.ceiling == account.ceiling
            }
            &&& r is Err ==> after == account && left == budget
            &&& account.raw_bytes + bytes > account.ceiling ==> r is Err
            &&& left.limit == budget.limit
        }),
{
    if account.charged(budget, bytes).0 is Ok {
        lemma_power_reaches(1, (2 * (account.raw_bytes + bytes) + 8) as nat);
    }
}

proof fn lemma_power_reaches(power: nat, n: nat)
    requires
        power > 0,
    ensures
        super::body::power_from(power, n) >= n,
    decreases super::body::left_to(power as int, n as int),
{
    if power < n {
        lemma_power_reaches(2 * power, n);
    }
}

/// The bytes of units, one behind the other.
pub open spec fn unit_bytes(units: Seq<NativeUnit>) -> Seq<u8>
    decreases units.len(),
{
    if units.len() == 0 {
        Seq::empty()
    } else {
        units[0].bytes@ + unit_bytes(units.skip(1))
    }
}

/// The bytes of pieces, one behind the other.
pub open spec fn piece_bytes(pieces: Seq<Vec<u8>>) -> Seq<u8>
    decreases pieces.len(),
{
    if pieces.len() == 0 {
        Seq::empty()
    } else {
        pieces[0]@ + piece_bytes(pieces.skip(1))
    }
}

/// What events were rendered to, one behind the other.
pub open spec fn rendered_bytes(events: Seq<DecodedEvent>) -> Seq<u8>
    decreases events.len(),
{
    if events.len() == 0 {
        Seq::empty()
    } else {
        piece_bytes(events[0].rendered@) + rendered_bytes(events.skip(1))
    }
}

/// Whether an attempt holds some bytes more than another, and the budget counts them.
pub open spec fn grew_by(
    before: AttemptView,
    held_before: StreamBudget,
    after: AttemptView,
    held_after: StreamBudget,
    bytes: Seq<u8>,
) -> bool {
    match (before.prefix, after.prefix) {
        (Some(old_queue), Some(new_queue)) => {
            &&& held(new_queue) == held(old_queue) + bytes
            &&& held_after.live == held_before.live + bytes.len()
            &&& held_after.limit == held_before.limit
        },
        (None, None) => bytes.len() == 0 && held_after == held_before,
        _ => false,
    }
}

proof fn lemma_pushed(attempt: AttemptView, budget: StreamBudget, bytes: Seq<u8>)
    requires
        is_sound(attempt, budget),
    ensures
        ({
            let (r, after, left) = attempt.pushed(budget, bytes);
            &&& r is Ok ==> grew_by(attempt, budget, after, left, bytes) && is_sound(after, left)
                && attempt.prefix is Some
            &&& after == (AttemptView { prefix: after.prefix, ..attempt })
        }),
{
    if let Some(queue) = attempt.prefix {
        bytes_are_queued_behind_the_others(queue, budget, bytes);
    }
}

proof fn lemma_unit_pushed(attempt: AttemptView, budget: StreamBudget, unit: NativeUnit)
    requires
        is_sound(attempt, budget),
    ensures
        ({
            let (r, after, left) = attempt.unit_pushed(
                budget,
                unit.bytes@,
                unit.terminal is Some,
            );
            &&& r is Ok ==> {
                &&& grew_by(attempt, budget, after, left, unit.bytes@) && is_sound(after, left)
                &&& attempt.prefix_terminal_chunks is None
                &&& unit.terminal is None ==> after.prefix_terminal_chunks is None
                &&& unit.terminal is Some ==> after.prefix_terminal_chunks == Some(
                    after.prefix->0.chunks.len() as usize,
                ) && after.prefix->0.chunks.len() > 0
            }
            &&& after == (AttemptView {
                prefix: after.prefix,
                prefix_terminal_chunks: after.prefix_terminal_chunks,
                ..attempt
            })
        }),
{
    lemma_pushed(attempt, budget, unit.bytes@);
    if let Some(queue) = attempt.prefix {
        bytes_are_queued_behind_the_others(queue, budget, unit.bytes@);
    }
}

/// What is known once a first unit was taken.
spec fn after_unit(start: StreamView, unit: NativeUnit) -> (Result<(), Seq<char>>, StreamView) {
    let ended = match unit.terminal {
        Some(outcome) => AttemptView {
            semantic_terminal: Some(native_end(outcome)),
            terminal_seen: true,
            ..start.attempt
        },
        None => start.attempt,
    };
    let (r, attempt, budget) = ended.unit_pushed(
        start.budget,
        unit.bytes@,
        unit.terminal is Some,
    );
    (
        r,
        StreamView {
            attempt,
            budget,
            semantic: start.semantic || unit.semantic,
            failure: if unit.failure is Some && !(start.attempt.semantic_seen || start.semantic) {
                error_view(unit.failure)
            } else {
                start.failure
            },
        },
    )
}

proof fn lemma_first_unit(start: StreamView, units: Seq<NativeUnit>)
    requires
        units.len() > 0,
        start.projected(units).0 is Ok,
    ensures
        after_unit(start, units[0]).0 is Ok,
        start.projected(units) == after_unit(start, units[0]).1.projected(units.skip(1)),
{
}

proof fn lemma_unit_step(start: StreamView, unit: NativeUnit)
    requires
        is_sound(start.attempt, start.budget),
        after_unit(start, unit).0 is Ok,
    ensures
        ({
            let next = after_unit(start, unit).1;
            &&& grew_by(start.attempt, start.budget, next.attempt, next.budget, unit.bytes@)
            &&& is_sound(next.attempt, next.budget)
            &&& start.attempt.prefix is Some
            &&& next.attempt.prefix_terminal_chunks is Some <==> unit.terminal is Some
            &&& next.attempt == (AttemptView {
                prefix: next.attempt.prefix,
                prefix_terminal_chunks: next.attempt.prefix_terminal_chunks,
                semantic_terminal: if unit.terminal is Some {
                    Some(native_end(unit.terminal->0))
                } else {
                    start.attempt.semantic_terminal
                },
                terminal_seen: start.attempt.terminal_seen || unit.terminal is Some,
                ..start.attempt
            })
        }),
{
    let ended = match unit.terminal {
        Some(outcome) => AttemptView {
            semantic_terminal: Some(native_end(outcome)),
            terminal_seen: true,
            ..start.attempt
        },
        None => start.attempt,
    };
    lemma_unit_pushed(ended, start.budget, unit);
    if let Some(queue) = ended.prefix {
        lemma_pushed(ended, start.budget, unit.bytes@);
    }
}

/// Units of a stream that were all taken: the prefix holds their bytes behind what it held, in
/// their order. Only the last may end the stream, and its end is then known. Codecs and settings of
/// the attempt stay as they were.
pub proof fn units_are_held_in_their_order(start: StreamView, units: Seq<NativeUnit>)
    requires
        is_sound(start.attempt, start.budget),
        start.projected(units).0 is Ok,
    ensures
        ({
            let seen = start.projected(units).1;
            &&& grew_by(start.attempt, start.budget, seen.attempt, seen.budget, unit_bytes(units))
            &&& is_sound(seen.attempt, seen.budget)
            &&& forall|i: int|
                0 <= i < units.len() - 1 ==> (#[trigger] units[i]).terminal is None
            &&& units.len() > 0 && units.last().terminal is Some ==> seen.attempt.semantic_terminal
                == Some(native_end(units.last().terminal->0)) && seen.attempt.terminal_seen
            &&& units.len() == 0 || units.last().terminal is None ==> seen.attempt.semantic_terminal
                == start.attempt.semantic_terminal && seen.attempt.terminal_seen
                == start.attempt.terminal_seen
            &&& seen.attempt == (AttemptView {
                prefix: seen.attempt.prefix,
                prefix_terminal_chunks: seen.attempt.prefix_terminal_chunks,
                semantic_terminal: seen.attempt.semantic_terminal,
                terminal_seen: seen.attempt.terminal_seen,
                ..start.attempt
            })
        }),
    decreases units.len(),
{
    if units.len() > 0 {
        let unit = units[0];
        let rest = units.skip(1);
        let next = after_unit(start, unit).1;
        lemma_first_unit(start, units);
        lemma_unit_step(start, unit);
        units_are_held_in_their_order(next, rest);
        let seen = next.projected(rest).1;
        let first = held(start.attempt.prefix->0);
        assert((first + unit.bytes@) + unit_bytes(rest) =~= first + (unit.bytes@ + unit_bytes(
            rest,
        )));
        assert forall|i: int| 1 <= i < units.len() implies #[trigger] units[i] == rest[i - 1] by {}
        if rest.len() > 0 {
            assert(rest.last() == units.last());
            if unit.terminal is Some {
                lemma_nothing_follows_an_end(next, rest);
            }
        } else {
            assert(units.last() == unit);
            assert(seen == next);
        }
        assert forall|i: int| 0 <= i < units.len() - 1 implies (#[trigger] units[i]).terminal
            is None by {
            if i > 0 {
                assert(rest[i - 1].terminal is None);
            }
        }
    }
}

/// What units of a stream said is remembered, and a failure among them counts exactly where nothing
/// was said before it.
pub proof fn failures_count_before_anything_is_said(start: StreamView, units: Seq<NativeUnit>)
    requires
        is_sound(start.attempt, start.budget),
        start.projected(units).0 is Ok,
    ensures
        ({
            let seen = start.projected(units).1;
            &&& seen.semantic <==> start.semantic || exists|i: int|
                0 <= i < units.len() && (#[trigger] units[i]).semantic
            &&& seen.failure is Some <==> start.failure is Some || exists|i: int|
                counts_as_failure(start, units, i)
            &&& seen.failure == start.failure || exists|i: int|
                counts_as_failure(start, units, i) && seen.failure == error_view(
                    units[i].failure,
                )
        }),
    decreases units.len(),
{
    if units.len() > 0 {
        let unit = units[0];
        let rest = units.skip(1);
        let next = after_unit(start, unit).1;
        lemma_first_unit(start, units);
        lemma_unit_step(start, unit);
        failures_count_before_anything_is_said(next, rest);
        let seen = next.projected(rest).1;
        assert forall|i: int| 1 <= i < units.len() implies #[trigger] units[i] == rest[i - 1] by {}
        if seen.semantic && !start.semantic {
            if unit.semantic {
                assert(units[0].semantic);
            } else {
                let i = choose|i: int| 0 <= i < rest.len() && (#[trigger] rest[i]).semantic;
                assert(units[i + 1].semantic);
            }
        }
        if exists|i: int| 0 <= i < units.len() && (#[trigger] units[i]).semantic {
            let i = choose|i: int| 0 <= i < units.len() && (#[trigger] units[i]).semantic;
            if i > 0 {
                assert(rest[i - 1].semantic);
            }
        }
        assert forall|i: int| counts_as_failure(next, rest, i) implies counts_as_failure(
            start,
            units,
            i + 1,
        ) by {
            assert(units[i + 1] == rest[i]);
            assert forall|j: int| 0 <= j < i + 1 implies !(#[trigger] units[j]).semantic by {
                if j > 0 {
                    assert(!rest[j - 1].semantic);
                }
            }
        }
        if exists|i: int| counts_as_failure(start, units, i) {
            let i = choose|i: int| counts_as_failure(start, units, i);
            if i > 0 {
                assert(!units[0].semantic);
                assert(rest[i - 1].failure is Some);
                assert forall|j: int| 0 <= j < i - 1 implies !(#[trigger] rest[j]).semantic by {
                    assert(!units[j + 1].semantic);
                }
                assert(counts_as_failure(next, rest, i - 1));
            }
        }
        if next.failure != start.failure {
            assert(counts_as_failure(start, units, 0));
        }
        if seen.failure is Some && start.failure is None && next.failure is None {
            let i = choose|i: int| counts_as_failure(next, rest, i);
            assert(counts_as_failure(start, units, i + 1));
        }
        if seen.failure != start.failure {
            if seen.failure == next.failure {
                assert(counts_as_failure(start, units, 0));
            } else {
                let i = choose|i: int|
                    counts_as_failure(next, rest, i) && seen.failure == error_view(
                        rest[i].failure,
                    );
                assert(counts_as_failure(start, units, i + 1));
                assert(units[i + 1] == rest[i]);
            }
        }
    }
}

/// Whether the failure of a unit counts: nothing was said before it.
pub open spec fn counts_as_failure(start: StreamView, units: Seq<NativeUnit>, i: int) -> bool {
    &&& 0 <= i < units.len()
    &&& units[i].failure is Some
    &&& !start.attempt.semantic_seen && !start.semantic
    &&& forall|j: int| 0 <= j < i ==> !(#[trigger] units[j]).semantic
}

proof fn lemma_nothing_follows_an_end(start: StreamView, units: Seq<NativeUnit>)
    requires
        units.len() > 0,
        start.attempt.prefix_terminal_chunks is Some,
    ensures
        start.projected(units).0 is Err,
{
}

proof fn lemma_pieces(start: StreamView, pieces: Seq<Vec<u8>>)
    requires
        is_sound(start.attempt, start.budget),
        start.rendered(pieces).0 is Ok,
    ensures
        ({
            let seen = start.rendered(pieces).1;
            &&& grew_by(
                start.attempt,
                start.budget,
                seen.attempt,
                seen.budget,
                piece_bytes(pieces),
            )
            &&& is_sound(seen.attempt, seen.budget)
            &&& seen.semantic == start.semantic && seen.failure == start.failure
            &&& seen.attempt == (AttemptView { prefix: seen.attempt.prefix, ..start.attempt })
        }),
    decreases pieces.len(),
{
    if pieces.len() > 0 {
        let rest = pieces.skip(1);
        let (r, attempt, budget) = start.attempt.pushed(start.budget, pieces[0]@);
        let next = StreamView { attempt, budget, ..start };
        lemma_pushed(start.attempt, start.budget, pieces[0]@);
        lemma_pieces(next, rest);
        let first = held(start.attempt.prefix->0);
        assert((first + pieces[0]@) + piece_bytes(rest) =~= first + (pieces[0]@ + piece_bytes(
            rest,
        )));
    } else {
        if let Some(queue) = start.attempt.prefix {
            assert(held(queue) + Seq::<u8>::empty() =~= held(queue));
        }
    }
}

/// Whether the failure that an event reports counts: nothing was said before it.
pub open spec fn event_counts_as_failure(
    start: StreamView,
    events: Seq<DecodedEvent>,
    i: int,
) -> bool {
    &&& 0 <= i < events.len()
    &&& events[i].event is ResponseFailed
    &&& !start.attempt.semantic_seen && !start.semantic
    &&& forall|j: int| 0 <= j < i ==> !(#[trigger] events[j]).semantic
}

/// Events of a stream that were all taken: the prefix holds what they were rendered to behind what
/// it held, in their order. What they said is remembered, as is that one of them was the last of a
/// response, and a failure among them counts exactly where nothing was said before it.
pub proof fn events_are_held_in_their_order(start: StreamView, events: Seq<DecodedEvent>)
    requires
        is_sound(start.attempt, start.budget),
        start.decoded(events).0 is Ok,
    ensures
        ({
            let seen = start.decoded(events).1;
            &&& grew_by(
                start.attempt,
                start.budget,
                seen.attempt,
                seen.budget,
                rendered_bytes(events),
            )
            &&& is_sound(seen.attempt, seen.budget)
            &&& forall|i: int| 0 <= i < events.len() ==> (#[trigger] events[i]).render_error is None
            &&& seen.attempt == (AttemptView {
                prefix: seen.attempt.prefix,
                semantic_terminal: seen.attempt.semantic_terminal,
                terminal_seen: seen.attempt.terminal_seen,
                ..start.attempt
            })
            &&& seen.attempt.terminal_seen <==> start.attempt.terminal_seen || exists|i: int|
                0 <= i < events.len() && ((#[trigger] events[i]).event is ResponseCompleted
                    || events[i].event is ResponseFailed)
            &&& seen.semantic <==> start.semantic || exists|i: int|
                0 <= i < events.len() && (#[trigger] events[i]).semantic
            &&& seen.failure is Some <==> start.failure is Some || exists|i: int|
                event_counts_as_failure(start, events, i)
        }),
    decreases events.len(),
{
    if events.len() > 0 {
        let event = events[0];
        let rest = events.skip(1);
        let next = start.decoded_one(event).1;
        lemma_event_step(start, event);
        assert(start.decoded(events) == next.decoded(rest));
        events_are_held_in_their_order(next, rest);
        let seen = next.decoded(rest).1;
        if let Some(queue) = start.attempt.prefix {
            let own = piece_bytes(event.rendered@);
            assert((held(queue) + own) + rendered_bytes(rest) =~= held(queue) + (own
                + rendered_bytes(rest)));
        }
        assert forall|i: int| 1 <= i < events.len() implies #[trigger] events[i] == rest[i
            - 1] by {}
        assert forall|i: int| 0 <= i < events.len() implies (#[trigger] events[i]).render_error
            is None by {
            if i > 0 {
                assert(rest[i - 1].render_error is None);
            }
        }
        lemma_events_said(start, events);
    } else {
        if let Some(queue) = start.attempt.prefix {
            assert(held(queue) + Seq::<u8>::empty() =~= held(queue));
        }
    }
}

proof fn lemma_event_step(start: StreamView, event: DecodedEvent)
    requires
        is_sound(start.attempt, start.budget),
        start.decoded_one(event).0 is Ok,
    ensures
        ({
            let next = start.decoded_one(event).1;
            &&& event.render_error is None
            &&& grew_by(
                start.attempt,
                start.budget,
                next.attempt,
                next.budget,
                piece_bytes(event.rendered@),
            )
            &&& is_sound(next.attempt, next.budget)
            &&& next.semantic == (start.semantic || event.semantic)
            &&& next.attempt == (AttemptView {
                prefix: next.attempt.prefix,
                semantic_terminal: next.attempt.semantic_terminal,
                terminal_seen: next.attempt.terminal_seen,
                ..start.attempt
            })
            &&& next.attempt.terminal_seen == (start.attempt.terminal_seen
                || event.event is ResponseCompleted || event.event is ResponseFailed)
            &&& next.failure is Some <==> start.failure is Some || (event.event is ResponseFailed
                && !start.attempt.semantic_seen && !start.semantic)
        }),
{
    lemma_pieces(start.observed(event), event.rendered@);
}

proof fn lemma_events_said(start: StreamView, events: Seq<DecodedEvent>)
    requires
        is_sound(start.attempt, start.budget),
        start.decoded(events).0 is Ok,
    ensures
        ({
            let seen = start.decoded(events).1;
            &&& seen.attempt.terminal_seen <==> start.attempt.terminal_seen || exists|i: int|
                0 <= i < events.len() && ((#[trigger] events[i]).event is ResponseCompleted
                    || events[i].event is ResponseFailed)
            &&& seen.semantic <==> start.semantic || exists|i: int|
                0 <= i < events.len() && (#[trigger] events[i]).semantic
            &&& seen.failure is Some <==> start.failure is Some || exists|i: int|
                event_counts_as_failure(start, events, i)
        }),
    decreases events.len(),
{
    if events.len() > 0 {
        let event = events[0];
        let rest = events.skip(1);
        let next = start.decoded_one(event).1;
        lemma_event_step(start, event);
        assert(start.decoded(events) == next.decoded(rest));
        lemma_events_said(next, rest);
        let seen = next.decoded(rest).1;
        assert forall|i: int| 1 <= i < events.len() implies #[trigger] events[i] == rest[i
            - 1] by {}
        if exists|i: int|
            0 <= i < rest.len() && ((#[trigger] rest[i]).event is ResponseCompleted
                || rest[i].event is ResponseFailed) {
            let i = choose|i: int|
                0 <= i < rest.len() && ((#[trigger] rest[i]).event is ResponseCompleted
                    || rest[i].event is ResponseFailed);
            assert(events[i + 1] == rest[i]);
        }
        if exists|i: int|
            0 <= i < events.len() && ((#[trigger] events[i]).event is ResponseCompleted
                || events[i].event is ResponseFailed) {
            let i = choose|i: int|
                0 <= i < events.len() && ((#[trigger] events[i]).event is ResponseCompleted
                    || events[i].event is ResponseFailed);
            if i > 0 {
                assert(rest[i - 1] == events[i]);
            }
        }
        if exists|i: int| 0 <= i < rest.len() && (#[trigger] rest[i]).semantic {
            let i = choose|i: int| 0 <= i < rest.len() && (#[trigger] rest[i]).semantic;
            assert(events[i + 1].semantic);
        }
        if exists|i: int| 0 <= i < events.len() && (#[trigger] events[i]).semantic {
            let i = choose|i: int| 0 <= i < events.len() && (#[trigger] events[i]).semantic;
            if i > 0 {
                assert(rest[i - 1].semantic);
            }
        }
        assert(events[0].event == event.event);
        if exists|i: int| event_counts_as_failure(next, rest, i) {
            let i = choose|i: int| event_counts_as_failure(next, rest, i);
            assert(events[i + 1] == rest[i]);
            assert forall|j: int| 0 <= j < i + 1 implies !(#[trigger] events[j]).semantic by {
                if j > 0 {
                    assert(!rest[j - 1].semantic);
                }
            }
            assert(event_counts_as_failure(start, events, i + 1));
        }
        if exists|i: int| event_counts_as_failure(start, events, i) {
            let i = choose|i: int| event_counts_as_failure(start, events, i);
            if i > 0 {
                assert(!events[0].semantic);
                assert(rest[i - 1] == events[i]);
                assert forall|j: int| 0 <= j < i - 1 implies !(#[trigger] rest[j]).semantic by {
                    assert(!events[j + 1].semantic);
                }
                assert(event_counts_as_failure(next, rest, i - 1));
            }
        }
        if next.failure is Some && start.failure is None {
            assert(event_counts_as_failure(start, events, 0));
        }
    }
}

/// Units of a whole response that were all taken: the prefix holds their bytes behind what it held,
/// in their order. Its first failure counts, whatever was said before it.
#[verifier::spinoff_prover]
#[verifier::rlimit(60)]
pub proof fn whole_units_are_held_in_their_order(
    attempt: AttemptView,
    budget: StreamBudget,
    units: Seq<NativeUnit>,
    failure: Option<ModelErrorView>,
)
    requires
        is_sound(attempt, budget),
        attempt.whole(budget, units, failure).0 is Ok,
    ensures
        ({
            let (r, after, left) = attempt.whole(budget, units, failure);
            &&& grew_by(attempt, budget, after, left, unit_bytes(units))
            &&& is_sound(after, left)
            &&& after.semantic_seen <==> attempt.semantic_seen || exists|i: int|
                0 <= i < units.len() && (#[trigger] units[i]).semantic
            &&& failure is Some ==> r->Ok_0 == failure
            &&& failure is None && r->Ok_0 is None ==> forall|i: int|
                0 <= i < units.len() ==> (#[trigger] units[i]).failure is None
            &&& failure is None && r->Ok_0 is Some ==> exists|i: int|
                0 <= i < units.len() && error_view((#[trigger] units[i]).failure) == r->Ok_0
                    && forall|j: int| 0 <= j < i ==> (#[trigger] units[j]).failure is None
            &&& after.decoder == attempt.decoder && after.renderer == attempt.renderer
                && after.projector == attempt.projector && after.streaming == attempt.streaming
                && after.profile == attempt.profile && after.decoder_budget
                == attempt.decoder_budget
        }),
    decreases units.len(),
{
    if units.len() > 0 {
        let unit = units[0];
        let rest = units.skip(1);
        let seen = AttemptView {
            semantic_seen: attempt.semantic_seen || unit.semantic,
            semantic_terminal: match unit.terminal {
                Some(outcome) => Some(native_end(outcome)),
                None => attempt.semantic_terminal,
            },
            ..attempt
        };
        lemma_unit_pushed(seen, budget, unit);
        let (r, next, left) = attempt.whole_one(budget, unit);
        let first = if failure is Some {
            failure
        } else {
            error_view(unit.failure)
        };
        whole_units_are_held_in_their_order(next, left, rest, first);
        if let Some(queue) = attempt.prefix {
            assert((held(queue) + unit.bytes@) + unit_bytes(rest) =~= held(queue) + (unit.bytes@
                + unit_bytes(rest)));
        } else {
            lemma_pushed(seen, budget, unit.bytes@);
        }
        assert forall|i: int| 1 <= i < units.len() implies #[trigger] units[i] == rest[i - 1] by {}
        let done = next.whole(left, rest, first);
        if exists|i: int| 0 <= i < rest.len() && (#[trigger] rest[i]).semantic {
            let i = choose|i: int| 0 <= i < rest.len() && (#[trigger] rest[i]).semantic;
            assert(units[i + 1].semantic);
        }
        if exists|i: int| 0 <= i < units.len() && (#[trigger] units[i]).semantic {
            let i = choose|i: int| 0 <= i < units.len() && (#[trigger] units[i]).semantic;
            if i > 0 {
                assert(rest[i - 1].semantic);
            }
        }
        assert(units[0].semantic == unit.semantic && units[0].failure == unit.failure);
        if failure is None {
            if first is Some {
                assert(error_view(units[0].failure) == done.0->Ok_0);
            } else if done.0->Ok_0 is Some {
                let i = choose|i: int|
                    0 <= i < rest.len() && error_view((#[trigger] rest[i]).failure) == done.0->Ok_0
                        && forall|j: int| 0 <= j < i ==> (#[trigger] rest[j]).failure is None;
                assert(units[i + 1] == rest[i]);
                assert forall|j: int| 0 <= j < i + 1 implies (#[trigger] units[j]).failure
                    is None by {
                    if j > 0 {
                        assert(rest[j - 1].failure is None);
                    }
                }
            } else {
                assert forall|i: int| 0 <= i < units.len() implies (#[trigger] units[i]).failure
                    is None by {
                    if i > 0 {
                        assert(rest[i - 1].failure is None);
                    }
                }
            }
        }
    } else {
        if let Some(queue) = attempt.prefix {
            assert(held(queue) + Seq::<u8>::empty() =~= held(queue));
        }
    }
}

/// A part of a stream lets the response go as soon as it says something: as an event stream with
/// status 200, the facts of a response that said something, all the bytes so far, and its end still
/// to be sent only where the stream is over. Without anything said it stays held, and at the end it
/// fails. A failure of the model, or a part that could not be read, goes to the classifier.
pub proof fn streams_are_let_go_when_they_speak(
    attempt: AttemptView,
    read: (bool, StreamView),
    status: u16,
    finished: Option<bool>,
)
    ensures
        ({
            let step = attempt.after_stream(read, status, finished);
            let seen = read.1;
            let spoke = seen.attempt.semantic_seen || seen.semantic;
            &&& step.budget == seen.budget
            &&& !read.0 ==> step.action == seen.attempt.failing(
                super::response::RawAttemptFailure::Protocol,
                502,
            )
            &&& (read.0 && (seen.failure matches Some(error))) ==> step.action
                == seen.attempt.model_failing(seen.failure->0, status, true)
            &&& read.0 && seen.failure is None && finished is None && !seen.semantic ==> step.action
                == Ok::<_, Seq<char>>(ActionView::Pending) && step.attempt.prefix
                == seen.attempt.prefix
            &&& read.0 && seen.failure is None && finished is Some && !spoke ==> step.action
                == seen.attempt.failing(super::response::RawAttemptFailure::Protocol, 502)
            &&& read.0 && seen.failure is None && seen.attempt.prefix is Some && (if finished
                is None {
                seen.semantic
            } else {
                spoke && (seen.attempt.native_output || (seen.attempt.decoder && finished
                    == Some(true)))
            }) ==> (step.action matches Ok(ActionView::Ready { facts, readiness }) && facts
                == semantic_facts(status) && readiness.response_status == 200
                && readiness.content_type == "text/event-stream"@ && Some(readiness.prefix)
                == seen.attempt.prefix && readiness.prefix_eos_pending == (finished is Some)
                && readiness.projector == seen.attempt.projector && readiness.renderer
                == seen.attempt.renderer && readiness.decoder == (seen.attempt.decoder && (finished
                is None || seen.attempt.native_output)) && readiness.semantic_terminal
                == seen.attempt.semantic_terminal && readiness.terminal_body is None)
            &&& read.0 && seen.failure is None && finished == Some(false) && spoke
                && !seen.attempt.native_output ==> step.action is Err
            &&& read.0 ==> step.attempt.semantic_seen == spoke
        }),
{
}

/// A whole native response is let go where it said something, ended and reported no failure: as
/// JSON with status 200 and all its bytes. Everything else about it fails.
pub proof fn whole_responses_are_let_go(
    attempt: AttemptView,
    budget: StreamBudget,
    units: Seq<NativeUnit>,
    status: u16,
)
    requires
        is_sound(attempt, budget),
        attempt.whole(budget, units, None).0 is Ok,
    ensures
        ({
            let step = attempt.after_whole(budget, Some(units), status);
            let (r, after, left) = attempt.whole(budget, units, None);
            let whole = after.semantic_seen && after.semantic_terminal is Some;
            &&& (r->Ok_0 matches Some(error)) ==> step.action == after.model_failing(
                r->Ok_0->0,
                status,
                false,
            )
            &&& r->Ok_0 is None && !whole ==> step.action == after.failing(
                super::response::RawAttemptFailure::Protocol,
                502,
            )
            &&& r->Ok_0 is None && whole && attempt.prefix is Some ==> (step.action matches Ok(
                ActionView::Ready { facts, readiness },
            ) && facts == semantic_facts(status) && readiness.response_status == 200
                && readiness.content_type == "application/json"@ && held(readiness.prefix) == held(
                attempt.prefix->0,
            ) + unit_bytes(units) && !readiness.prefix_eos_pending && readiness.semantic_terminal
                == after.semantic_terminal)
        }),
{
    whole_units_are_held_in_their_order(attempt, budget, units, None);
}

/// A decoded response is let go where it holds no error, said something and has a client form under
/// a real status: under that status and type, with just those bytes behind what was held. A
/// response that could not be read, or cannot be shown, fails.
pub proof fn decoded_responses_are_let_go(
    attempt: AttemptView,
    budget: StreamBudget,
    fed: bool,
    response: Option<DecodedResponse>,
    status: u16,
)
    requires
        is_sound(attempt, budget),
        attempt.prefix is Some,
    ensures
        ({
            let step = attempt.after_decoded(budget, fed, response, status);
            &&& !fed || response is None ==> step.action == attempt.failing(
                super::response::decode_failure(status, attempt.retry_after),
                super::response::decode_status(status),
            )
            &&& fed && (response matches Some(decoded) && (decoded.error matches Some(error)))
                ==> step.action == attempt.model_failing(
                response->0.error->0@,
                status,
                false,
            )
            &&& fed && response is Some && response->0.error is None ==> (match response->0.rendered {
                Some(
                    RenderedClientResponse::Json { status: client_status, content_type, bytes },
                ) => {
                    &&& !(100 <= client_status <= 999) || !response->0.has_semantic_output
                        ==> step.action == attempt.failing(
                        super::response::RawAttemptFailure::Protocol,
                        502,
                    )
                    &&& 100 <= client_status <= 999 && response->0.has_semantic_output
                        && budget.live + bytes@.len() <= budget.limit && held(
                        attempt.prefix->0,
                    ).len() + bytes@.len() <= attempt.prefix->0.max_bytes ==> (
                    step.action matches Ok(ActionView::Ready { facts, readiness }) && facts
                        == semantic_facts(status) && readiness.response_status == client_status
                        && readiness.content_type == content_type@ && held(readiness.prefix)
                        == held(attempt.prefix->0) + bytes@ && readiness.prefix_eos_pending
                        && !readiness.decoder && readiness.semantic_terminal == response_end(
                        response->0,
                    ))
                },
                _ => step.action == attempt.failing(
                    super::response::RawAttemptFailure::Protocol,
                    502,
                ),
            })
        }),
{
    if response is Some && response->0.error is None {
        if let Some(RenderedClientResponse::Json { status: shown, content_type, bytes }) =
            response->0.rendered {
            bytes_are_queued_behind_the_others(attempt.prefix->0, budget, bytes@);
        }
    }
}

/// A classified failure is told to the client under the status that was decided for it, as JSON
/// that says nothing but that the attempt failed; what is told inside is what was classified. The
/// end of the reply is still to be sent.
pub proof fn failures_are_told_without_the_upstream(
    attempt: AttemptView,
    budget: StreamBudget,
    failure: AttemptFailure,
    local_status: u16,
)
    requires
        attempt.prefix is Some,
        budget.live + 74 <= budget.limit,
    ensures
        ({
            let step = attempt.after_failure(budget, failure, local_status);
            &&& step.attempt.classified_failure == Some(failure)
            &&& step.action matches Ok(ActionView::Ready { facts, readiness }) && facts
                == facts_of_failure(failure) && readiness.response_status == local_status
                && readiness.content_type == "application/json"@ && readiness.prefix_eos_pending
                && held(readiness.prefix).len() == 0 && readiness.terminal_body == Some(
                vstd::utf8::encode_utf8(
                    "{\"error\":{\"code\":\"UPSTREAM_ATTEMPT_FAILED\",\"type\":\"upstream_error\"}}"@,
                ),
            )
        }),
{
    let text =
        "{\"error\":{\"code\":\"UPSTREAM_ATTEMPT_FAILED\",\"type\":\"upstream_error\"}}"@;
    reveal_strlit(
        "{\"error\":{\"code\":\"UPSTREAM_ATTEMPT_FAILED\",\"type\":\"upstream_error\"}}",
    );
    assert(text.len() <= 74);
    assert(vstd::utf8::is_ascii_chars(text));
    vstd::utf8::is_ascii_chars_encode_utf8(text);
}

/// Bytes and the end of a response go to the codec that was opened for them: for a successful
/// stream the projector of native output, or the decoder together with the renderer; for other
/// native output of a successful response the projector; and to the decoder otherwise. Without that
/// codec, or before a final head, they are an error.
pub proof fn bytes_go_to_the_open_codec(attempt: AttemptView, status: u16, end_stream: bool)
    ensures
        ({
            let action = attempt.feeding(status, end_stream);
            let success = status / 100 == 2;
            &&& attempt.streaming && success && attempt.native_output && attempt.projector
                ==> action == Ok::<_, Seq<char>>(ActionView::Feed { projector: true, end_stream })
            &&& attempt.streaming && success && !attempt.native_output && attempt.decoder
                && attempt.renderer && attempt.prefix is Some ==> action == Ok::<_, Seq<char>>(
                ActionView::Feed { projector: false, end_stream },
            )
            &&& !attempt.streaming && success && attempt.native_output && attempt.projector
                ==> action == Ok::<_, Seq<char>>(ActionView::Feed { projector: true, end_stream })
            &&& (!success || (!attempt.streaming && !attempt.native_output)) && attempt.decoder
                ==> action == Ok::<_, Seq<char>>(ActionView::Feed { projector: false, end_stream })
            &&& action matches Ok(ActionView::Feed { projector, .. }) ==> if projector {
                attempt.projector && attempt.native_output && success
            } else {
                attempt.decoder && !(success && attempt.native_output)
            }
            &&& attempt.response_status is None ==> attempt.after_end() is Err
            &&& attempt.response_status == Some(status) ==> attempt.after_end()
                == attempt.feeding(status, true)
        }),
{
}

/// Body bytes are charged before a codec gets them: bytes that cannot be charged reach none and
/// change nothing, and without an account or a final head they are an error.
pub proof fn bodies_are_charged_first(attempt: AttemptView, budget: StreamBudget, retained: usize)
    ensures
        ({
            let step = attempt.after_body(budget, retained);
            &&& attempt.decoder_budget is None ==> step.action is Err && step.attempt == attempt
                && step.budget == budget
            &&& attempt.decoder_budget matches Some(account) ==> {
                let (charged, after, left) = account.charged(budget, retained);
                &&& step.budget == left && step.attempt == (AttemptView {
                    decoder_budget: Some(after),
                    ..attempt
                })
                &&& charged is Err ==> step.action is Err
                &&& charged is Ok && attempt.response_status is None ==> step.action is Err
                &&& charged is Ok && attempt.response_status is Some ==> step.action
                    == attempt.feeding(attempt.response_status->0, false)
            }
        }),
{
}

} // verus!
