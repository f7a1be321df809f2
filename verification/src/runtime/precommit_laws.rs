//! What holds over all the events of an attempt until its response is accepted.

use vstd::prelude::*;
use super::body::StreamBudget;
use super::facts::AttemptFailure;
use super::precommit::{local_reply_facts, StreamView};
use super::response::{
    ActionView, AttemptView, DecodeEnd, DecodedEvent, DecodedResponse, NativeUnit,
    ResponseHead, Step,
};

verus! {

/// One event of an attempt before its response is accepted: a part of the response, what a codec
/// made of it, or a decision from outside.
pub enum PrecommitEvent {
    Head { head: ResponseHead },
    CodecOpened { projector: bool, opened: bool },
    Body { retained: usize },
    EndStream,
    StreamUnits { units: Option<Seq<NativeUnit>>, end_stream: bool },
    StreamEvents { events: Seq<DecodedEvent>, end: DecodeEnd, finished: Option<bool> },
    PlainBodyFed { fed: bool },
    PlainUnits { units: Option<Seq<NativeUnit>> },
    PlainDecoded { fed: bool, response: Option<DecodedResponse> },
    FailureClassified { failure: AttemptFailure, local_status: u16 },
    LocalReply { status: u16 },
}

pub open spec fn some_unit_speaks(units: Seq<NativeUnit>) -> bool {
    exists|i: int| 0 <= i < units.len() && (#[trigger] units[i]).semantic
}

pub open spec fn some_event_speaks(events: Seq<DecodedEvent>) -> bool {
    exists|i: int| 0 <= i < events.len() && (#[trigger] events[i]).semantic
}

pub open spec fn some_unit_fails(units: Seq<NativeUnit>) -> bool {
    exists|i: int| 0 <= i < units.len() && (#[trigger] units[i]).failure is Some
}

pub open spec fn some_event_fails(events: Seq<DecodedEvent>) -> bool {
    exists|i: int| 0 <= i < events.len() && (#[trigger] events[i]).event is ResponseFailed
}

impl PrecommitEvent {
    /// Whether the event brings semantic output of the model.
    pub open spec fn speaks(self) -> bool {
        match self {
            PrecommitEvent::StreamUnits { units: Some(units), .. } => some_unit_speaks(units),
            PrecommitEvent::StreamEvents { events, .. } => some_event_speaks(events),
            PrecommitEvent::PlainUnits { units: Some(units) } => some_unit_speaks(units),
            PrecommitEvent::PlainDecoded { response: Some(response), .. } => {
                response.has_semantic_output
            },
            _ => false,
        }
    }

    /// Whether the event ends a streamed response.
    pub open spec fn ends_a_stream(self) -> bool {
        match self {
            PrecommitEvent::StreamUnits { end_stream, .. } => end_stream,
            PrecommitEvent::StreamEvents { finished, .. } => finished is Some,
            _ => false,
        }
    }

    /// Whether the event brings an error that the model reported in a stream.
    pub open spec fn reports_a_stream_error(self) -> bool {
        match self {
            PrecommitEvent::StreamUnits { units: Some(units), .. } => some_unit_fails(units),
            PrecommitEvent::StreamEvents { events, .. } => some_event_fails(events),
            _ => false,
        }
    }
}

impl AttemptView {
    /// What an event leads to.
    pub open spec fn after_event(self, budget: StreamBudget, event: PrecommitEvent) -> Step {
        let status = self.response_status->0;
        match event {
            PrecommitEvent::Head { head } => {
                let (action, attempt) = self.after_head(head);
                Step { action, attempt, budget }
            },
            PrecommitEvent::CodecOpened { projector, opened } => {
                let (action, attempt) = self.after_codec(projector, opened);
                Step { action, attempt, budget }
            },
            PrecommitEvent::Body { retained } => self.after_body(budget, retained),
            PrecommitEvent::EndStream => Step { action: self.after_end(), attempt: self, budget },
            PrecommitEvent::StreamUnits { units, end_stream } => self.after_stream(
                self.projecting(budget, units),
                status,
                if end_stream {
                    Some(true)
                } else {
                    None
                },
            ),
            PrecommitEvent::StreamEvents { events, end, finished } => self.after_stream(
                self.decoding(budget, events, end),
                status,
                finished,
            ),
            PrecommitEvent::PlainBodyFed { fed } => Step {
                action: if fed {
                    Ok(ActionView::Pending)
                } else {
                    self.unreadable(status)
                },
                attempt: self,
                budget,
            },
            PrecommitEvent::PlainUnits { units } => self.after_whole(budget, units, status),
            PrecommitEvent::PlainDecoded { fed, response } => self.after_decoded(
                budget,
                fed,
                response,
                status,
            ),
            PrecommitEvent::FailureClassified { failure, local_status } => self.after_failure(
                budget,
                failure,
                local_status,
            ),
            PrecommitEvent::LocalReply { status } => {
                let (action, attempt) = self.ready(
                    local_reply_facts(),
                    status,
                    "application/json"@,
                    true,
                );
                Step { action, attempt, budget }
            },
        }
    }

    /// What the last of some events leads to, where the others came before it in order.
    pub open spec fn after_events(self, budget: StreamBudget, events: Seq<PrecommitEvent>) -> Step
        decreases events.len(),
    {
        if events.len() == 0 {
            Step { action: Ok(ActionView::Pending), attempt: self, budget }
        } else {
            let before = self.after_events(budget, events.drop_last());
            before.attempt.after_event(before.budget, events.last())
        }
    }
}

/// A pushed unit keeps the profile and what was said.
proof fn lemma_unit_pushed(
    attempt: AttemptView,
    budget: StreamBudget,
    bytes: Seq<u8>,
    terminal: bool,
)
    ensures
        attempt.unit_pushed(budget, bytes, terminal).1.semantic_seen == attempt.semantic_seen,
        attempt.unit_pushed(budget, bytes, terminal).1.profile == attempt.profile,
{
}

#[verifier::rlimit(40)]
proof fn lemma_projected(start: StreamView, units: Seq<NativeUnit>)
    ensures
        ({
            let seen = start.projected(units).1;
            &&& seen.attempt.semantic_seen == start.attempt.semantic_seen
            &&& seen.attempt.profile == start.attempt.profile
            &&& seen.semantic ==> start.semantic || some_unit_speaks(units)
            &&& seen.failure is Some ==> start.failure is Some || some_unit_fails(units)
        }),
    decreases units.len(),
{
    if units.len() > 0 {
        let unit = units[0];
        let rest = units.skip(1);
        let ended = match unit.terminal {
            Some(outcome) => AttemptView {
                semantic_terminal: Some(super::response::native_end(outcome)),
                terminal_seen: true,
                ..start.attempt
            },
            None => start.attempt,
        };
        let failure = if unit.failure is Some && !(start.attempt.semantic_seen
            || start.semantic) {
            super::response::error_view(unit.failure)
        } else {
            start.failure
        };
        let (r, attempt, budget) = ended.unit_pushed(
            start.budget,
            unit.bytes@,
            unit.terminal is Some,
        );
        let next = StreamView {
            attempt,
            budget,
            semantic: start.semantic || unit.semantic,
            failure,
        };
        lemma_unit_pushed(ended, start.budget, unit.bytes@, unit.terminal is Some);
        lemma_projected(next, rest);
        assert(start.projected(units).1 == if r is Err {
            next
        } else {
            next.projected(rest).1
        });
        if some_unit_speaks(rest) {
            let i = choose|i: int| 0 <= i < rest.len() && (#[trigger] rest[i]).semantic;
            assert(units[i + 1].semantic);
        }
        if some_unit_fails(rest) {
            let i = choose|i: int| 0 <= i < rest.len() && (#[trigger] rest[i]).failure is Some;
            assert(units[i + 1].failure is Some);
        }
    }
}

proof fn lemma_rendered(start: StreamView, pieces: Seq<Vec<u8>>)
    ensures
        ({
            let seen = start.rendered(pieces).1;
            &&& seen.attempt.semantic_seen == start.attempt.semantic_seen
            &&& seen.attempt.profile == start.attempt.profile
            &&& seen.semantic == start.semantic
            &&& seen.failure == start.failure
        }),
    decreases pieces.len(),
{
    if pieces.len() > 0 {
        let (r, attempt, budget) = start.attempt.pushed(start.budget, pieces[0]@);
        lemma_rendered(StreamView { attempt, budget, ..start }, pieces.skip(1));
    }
}

proof fn lemma_decoded(start: StreamView, events: Seq<DecodedEvent>)
    ensures
        ({
            let seen = start.decoded(events).1;
            &&& seen.attempt.semantic_seen == start.attempt.semantic_seen
            &&& seen.attempt.profile == start.attempt.profile
            &&& seen.semantic ==> start.semantic || some_event_speaks(events)
            &&& seen.failure is Some ==> start.failure is Some || some_event_fails(events)
        }),
    decreases events.len(),
{
    if events.len() > 0 {
        let rest = events.skip(1);
        lemma_rendered(start.observed(events[0]), events[0].rendered@);
        lemma_decoded(start.decoded_one(events[0]).1, rest);
        if some_event_speaks(rest) {
            let i = choose|i: int| 0 <= i < rest.len() && (#[trigger] rest[i]).semantic;
            assert(events[i + 1].semantic);
        }
        if some_event_fails(rest) {
            let i = choose|i: int|
                0 <= i < rest.len() && (#[trigger] rest[i]).event is ResponseFailed;
            assert(events[i + 1].event is ResponseFailed);
        }
    }
}

proof fn lemma_whole(
    attempt: AttemptView,
    budget: StreamBudget,
    units: Seq<NativeUnit>,
    failure: Option<super::response::ModelErrorView>,
)
    ensures
        ({
            let seen = attempt.whole(budget, units, failure).1;
            &&& seen.profile == attempt.profile
            &&& seen.semantic_seen ==> attempt.semantic_seen || some_unit_speaks(units)
        }),
    decreases units.len(),
{
    if units.len() > 0 {
        let rest = units.skip(1);
        let (r, next, left) = attempt.whole_one(budget, units[0]);
        lemma_whole(
            next,
            left,
            rest,
            if failure is Some {
                failure
            } else {
                super::response::error_view(units[0].failure)
            },
        );
        if some_unit_speaks(rest) {
            let i = choose|i: int| 0 <= i < rest.len() && (#[trigger] rest[i]).semantic;
            assert(units[i + 1].semantic);
        }
    }
}

proof fn lemma_stream_step(
    attempt: AttemptView,
    read: (bool, StreamView),
    status: u16,
    finished: Option<bool>,
)
    requires
        read.1.attempt.semantic_seen == attempt.semantic_seen,
        read.1.attempt.profile == attempt.profile,
    ensures
        ({
            let step = attempt.after_stream(read, status, finished);
            &&& step.attempt.profile == attempt.profile
            &&& step.attempt.semantic_seen ==> attempt.semantic_seen || read.1.semantic
            &&& step.action matches Ok(ActionView::Ready { .. }) ==> attempt.semantic_seen
                || read.1.semantic
            &&& finished is Some && read.1.failure is None && !attempt.semantic_seen
                && !read.1.semantic ==> step.action == attempt.protocol_failing()
        }),
{
}

/// One event keeps the profile, and only output makes an attempt that has seen output.
#[verifier::rlimit(60)]
proof fn lemma_event(attempt: AttemptView, budget: StreamBudget, event: PrecommitEvent)
    ensures
        ({
            let step = attempt.after_event(budget, event);
            &&& step.attempt.profile == attempt.profile
            &&& step.attempt.semantic_seen ==> attempt.semantic_seen || event.speaks()
            &&& step.action matches Ok(ActionView::Ready { facts, .. })
                ==> facts.error_class is Some || attempt.semantic_seen || event.speaks()
            &&& event.ends_a_stream() && !event.reports_a_stream_error() && !attempt.semantic_seen
                && !event.speaks() ==> step.action == attempt.protocol_failing()
        }),
{
    let status = attempt.response_status->0;
    let start = StreamView { attempt, budget, semantic: false, failure: None };
    match event {
        PrecommitEvent::StreamUnits { units, end_stream } => {
            if let Some(units) = units {
                lemma_projected(start, units);
            }
            let finished = if end_stream {
                Some(true)
            } else {
                None
            };
            lemma_stream_step(attempt, attempt.projecting(budget, units), status, finished);
        },
        PrecommitEvent::StreamEvents { events, end, finished } => {
            lemma_decoded(start, events);
            lemma_stream_step(attempt, attempt.decoding(budget, events, end), status, finished);
        },
        PrecommitEvent::PlainUnits { units } => {
            if let Some(units) = units {
                lemma_whole(attempt, budget, units, None);
            }
        },
        _ => {},
    }
}

proof fn lemma_events(attempt: AttemptView, budget: StreamBudget, events: Seq<PrecommitEvent>)
    requires
        !attempt.semantic_seen,
    ensures
        ({
            let step = attempt.after_events(budget, events);
            &&& step.attempt.profile == attempt.profile
            &&& step.attempt.semantic_seen ==> exists|i: int|
                0 <= i < events.len() && (#[trigger] events[i]).speaks()
        }),
    decreases events.len(),
{
    if events.len() > 0 {
        let init = events.drop_last();
        let before = attempt.after_events(budget, init);
        lemma_events(attempt, budget, init);
        lemma_event(before.attempt, before.budget, events.last());
        if before.attempt.semantic_seen {
            let i = choose|i: int| 0 <= i < init.len() && (#[trigger] init[i]).speaks();
            assert(events[i].speaks());
        } else if events.last().speaks() {
            assert(events[events.len() - 1].speaks());
        }
    }
}

/// Nothing is released before the model has said something. Whatever events an attempt has seen,
/// on whichever path, and in whatever order: a result without an error class comes only where
/// this event or an earlier one brought semantic output.
pub proof fn nothing_is_released_before_output(
    attempt: AttemptView,
    budget: StreamBudget,
    events: Seq<PrecommitEvent>,
)
    requires
        !attempt.semantic_seen,
        attempt.after_events(budget, events).action matches Ok(ActionView::Ready { facts, .. })
            && facts.error_class is None,
    ensures
        exists|i: int| 0 <= i < events.len() && (#[trigger] events[i]).speaks(),
{
    let init = events.drop_last();
    let before = attempt.after_events(budget, init);
    lemma_events(attempt, budget, init);
    lemma_event(before.attempt, before.budget, events.last());
    if before.attempt.semantic_seen {
        let i = choose|i: int| 0 <= i < init.len() && (#[trigger] init[i]).speaks();
        assert(events[i].speaks());
    } else {
        assert(events[events.len() - 1].speaks());
    }
}

/// A stream that ends without semantic output, and without an error of the model in its last
/// part, is a protocol failure that the client would see as a bad gateway.
pub proof fn silent_streams_fail(
    attempt: AttemptView,
    budget: StreamBudget,
    events: Seq<PrecommitEvent>,
)
    requires
        !attempt.semantic_seen,
        events.len() > 0,
        events.last().ends_a_stream(),
        !events.last().reports_a_stream_error(),
        forall|i: int| 0 <= i < events.len() ==> !(#[trigger] events[i]).speaks(),
    ensures
        attempt.after_events(budget, events).action == attempt.failing(
            super::response::RawAttemptFailure::Protocol,
            502,
        ),
{
    let init = events.drop_last();
    let before = attempt.after_events(budget, init);
    lemma_events(attempt, budget, init);
    lemma_event(before.attempt, before.budget, events.last());
    assert(!events[events.len() - 1].speaks());
    if before.attempt.semantic_seen {
        let i = choose|i: int| 0 <= i < init.len() && (#[trigger] init[i]).speaks();
        assert(events[i].speaks());
    }
}

} // verus!
