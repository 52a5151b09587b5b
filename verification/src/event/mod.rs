//! The events that the correlator consumes, and where they come from.

use crate::common::{
    parse_frame, CrashTracerEvent, EventType, FrameError, SchedExecEvent, SchedExitEvent,
    SignalDeliverEvent,
};
use vstd::prelude::*;

pub mod unified_source;

verus! {

/// One event of the capture plane, decoded.
#[derive(Clone, Copy, Debug, PartialEq, Eq)]
pub enum Event {
    SignalDeliver(SignalDeliverEvent),
    SchedExec(SchedExecEvent),
    SchedExit(SchedExitEvent),
}

/// Whether `event` is what the frame with the discriminant `tag` and the
/// payload region `payload` carries.
pub open spec fn event_of_frame(event: Event, tag: EventType, payload: Seq<u8>) -> bool {
    match tag {
        EventType::SchedExec => event == Event::SchedExec(SchedExecEvent::parse(payload)),
        EventType::SchedExit => event == Event::SchedExit(SchedExitEvent::parse(payload)),
        EventType::SignalDeliver => match event {
            Event::SignalDeliver(signal) => signal.matches_payload(payload),
            _ => false,
        },
    }
}

/// Whether `event` is what the chunk `data` read from the ring decodes to.
pub open spec fn event_of_chunk(event: Event, data: Seq<u8>) -> bool {
    match parse_frame(data) {
        Ok((tag, payload)) => event_of_frame(event, tag, payload),
        Err(_) => false,
    }
}

/// Whether the chunk `data` read from the ring is a frame.
pub open spec fn decodable(data: Seq<u8>) -> bool {
    parse_frame(data) is Ok
}

impl Event {
    /// The event that a frame carries.
    pub fn from_frame(frame: &CrashTracerEvent) -> (event: Event)
        ensures
            event_of_frame(event, frame.tag, frame.payload@),
    {
        match frame.tag {
            EventType::SchedExec => Event::SchedExec(
                SchedExecEvent::decode(frame.payload.as_slice()),
            ),
            EventType::SchedExit => Event::SchedExit(
                SchedExitEvent::decode(frame.payload.as_slice()),
            ),
            EventType::SignalDeliver => Event::SignalDeliver(
                SignalDeliverEvent::decode(frame.payload.as_slice()),
            ),
        }
    }

    /// Decodes one chunk read from the ring. A chunk shorter than a frame and
    /// a chunk with an unknown discriminant are rejected.
    pub fn decode(data: &[u8]) -> (r: Result<Event, FrameError>)
        ensures
            match parse_frame(data@) {
                Err(e) => r == Err::<Event, FrameError>(e),
                Ok(_) => r is Ok && event_of_chunk(r->Ok_0, data@),
            },
    {
        match CrashTracerEvent::from_bytes(data) {
            Ok(frame) => Ok(Event::from_frame(&frame)),
            Err(e) => Err(e),
        }
    }
}

/// A frame that was submitted is read from the ring as a frame, and decodes
/// to the event that it carries.
pub proof fn lemma_submitted_frame_decodes(frame: CrashTracerEvent, event: Event)
    ensures
        decodable(frame.frame_bytes()),
        event_of_chunk(event, frame.frame_bytes()) <==> event_of_frame(
            event,
            frame.tag,
            frame.payload@,
        ),
{
    crate::common::lemma_frame_round_trip(frame);
}

/// A source of events for the single consumer.
pub trait EventSource {
    /// The next event, or `None` when the source has none at the moment.
    fn next_event(&mut self) -> Option<Event>;
}

} // verus!
