//! The program on the exit tracepoint: emits the crash of a task that a
//! signal killed, then its exit, and cleans the side maps.

use crate::common::{
    crash_signal, lemma_signal_round_trip, CrashTracerEvent, EventType, SchedExitEvent,
    SignalDeliverEvent,
};
use crate::programs::side_map::{entry_value, without_entry};
use crate::programs::{lemma_value_is_entry, CaptureState, CaptureView, TaskInfo};
use vstd::prelude::*;

verus! {

/// The exit record of a task.
pub open spec fn exit_event_of(task: TaskInfo) -> SchedExitEvent {
    SchedExitEvent { pid: task.pid, exit_code: task.exit_code, boottime: task.boottime }
}

/// Whether a signal killed the task: the low 7 bits of its exit code are
/// not 0.
pub open spec fn killed_by_signal(exit_code: u32) -> bool {
    exit_code & 0x7f != 0
}

/// Whether `frame` is the exit frame of `task`.
pub open spec fn is_exit_frame(frame: CrashTracerEvent, task: TaskInfo) -> bool {
    frame.tag == EventType::SchedExit && frame.payload@ == exit_event_of(task).payload_bytes()
}

/// Whether `frame` is the signal frame of the signal record `signal`.
pub open spec fn is_signal_frame(frame: CrashTracerEvent, signal: SignalDeliverEvent) -> bool {
    frame.tag == EventType::SignalDeliver && frame.payload@ == signal.payload_bytes()
}

/// The signal record that the exit program emits for `task`: the one that
/// waits under the key of the task, where a signal killed the task.
pub open spec fn crash_to_emit(before: CaptureView, task: TaskInfo) -> Option<SignalDeliverEvent> {
    if killed_by_signal(task.exit_code) {
        entry_value(before.pending_signals, task.spec_key())
    } else {
        None
    }
}

/// What the exit program makes of the shared state.
///
/// Where a signal killed the task and its signal record waits, the signal
/// frame is submitted, and the exit frame right after it. Without a signal
/// frame, because there is nothing to emit or because the ring is full, the
/// stack capture of the task is removed. The signal record of the task is
/// removed in any case.
pub open spec fn exit_outcome(before: CaptureView, task: TaskInfo, after: CaptureView) -> bool {
    let crash = crash_to_emit(before, task);
    let room = before.ring_capacity - before.ring.len();
    let emitted = crash is Some && room >= 1;
    let frames = (if emitted {
        1int
    } else {
        0int
    }) + (if (emitted && room >= 2) || (!emitted && room >= 1) {
        1int
    } else {
        0int
    });
    &&& after.ring_capacity == before.ring_capacity
    &&& after.pending_signals == without_entry(before.pending_signals, task.spec_key())
    &&& after.stack_dumps == if emitted {
        before.stack_dumps
    } else {
        without_entry(before.stack_dumps, task.spec_key())
    }
    &&& after.ring.len() == before.ring.len() + frames
    &&& after.ring.take(before.ring.len() as int) == before.ring
    &&& emitted ==> is_signal_frame(after.ring[before.ring.len() as int], crash->0)
    &&& emitted && room >= 2 ==> is_exit_frame(after.ring[before.ring.len() as int + 1], task)
    &&& !emitted && room >= 1 ==> is_exit_frame(after.ring[before.ring.len() as int], task)
}

/// Runs on `sched_process_exit` in the context of `task`. Where the ring is
/// full an event is dropped; the side maps are cleaned regardless.
pub fn try_handle_sched_process_exit(state: &mut CaptureState, task: &TaskInfo) -> (r: Result<
    (),
    i64,
>)
    ensures
        final(state)@.contents_wf(),
        r is Ok,
        exit_outcome(old(state)@, *task, final(state)@),
{
    proof {
        use_type_invariant(&*state);
    }
    let ghost before = state@;
    let key = task.key();
    let code: u32 = task.exit_code;
    let crash: Option<SignalDeliverEvent> = if code & 0x7f != 0 {
        state.pending_signal(&key)
    } else {
        None
    };
    let mut emitted: bool = false;
    match crash {
        Some(signal) => {
            if state.has_room() {
                let frame = CrashTracerEvent::signal(&signal);
                proof {
                    lemma_signal_round_trip(signal);
                }
                state.submit(frame);
                emitted = true;
            }
        },
        None => {},
    }
    if !emitted {
        state.drop_dump(&key);
    }
    let ghost mid = state@;
    if state.has_room() {
        let event = SchedExitEvent {
            pid: task.pid,
            exit_code: task.exit_code,
            boottime: task.boottime,
        };
        state.submit(CrashTracerEvent::exit(&event));
    }
    state.drop_pending(&key);
    proof {
        let after = state@;
        assert(after.ring.take(before.ring.len() as int) =~= before.ring);
    }
    Ok(())
}

/// The crash of a task is seen right before its exit: where the exit program
/// submits a signal frame and the ring has room for two frames, the signal
/// frame and the exit frame stand next to each other at the end of the ring,
/// the signal frame first.
pub proof fn lemma_crash_before_exit(before: CaptureView, task: TaskInfo, after: CaptureView)
    requires
        exit_outcome(before, task, after),
        crash_to_emit(before, task) is Some,
        before.ring.len() + 2 <= before.ring_capacity,
    ensures
        after.ring.len() == before.ring.len() + 2,
        is_signal_frame(after.ring[after.ring.len() - 2], crash_to_emit(before, task)->0),
        is_exit_frame(after.ring[after.ring.len() - 1], task),
        killed_by_signal(task.exit_code),
{
}

/// A signal frame is submitted only for a crash signal, and only when a
/// signal killed the task: the record that the exit program emits carries
/// one of the five signals.
pub proof fn lemma_emitted_signal_is_crash_signal(before: CaptureView, task: TaskInfo)
    requires
        before.contents_wf(),
        crash_to_emit(before, task) is Some,
    ensures
        crash_signal(crash_to_emit(before, task)->0.signal as int),
        killed_by_signal(task.exit_code),
{
    lemma_value_is_entry(before.pending_signals, task.spec_key());
}

/// Where the ring is full when a task exits, no frame is submitted and both
/// side maps are clean of the task.
pub proof fn lemma_full_ring_cleans_side_maps(
    before: CaptureView,
    task: TaskInfo,
    after: CaptureView,
)
    requires
        exit_outcome(before, task, after),
        before.ring.len() >= before.ring_capacity,
    ensures
        after.ring == before.ring,
        after.pending_signals == without_entry(before.pending_signals, task.spec_key()),
        after.stack_dumps == without_entry(before.stack_dumps, task.spec_key()),
{
    assert(after.ring =~= before.ring);
}

} // verus!
