//! The program on the exec tracepoint: anchors the identity of a process.

use crate::common::{CrashTracerEvent, EventType, SchedExecEvent};
use crate::programs::{CaptureState, CaptureView, TaskInfo};
use vstd::prelude::*;

verus! {

/// The exec record of a task.
pub open spec fn exec_event_of(task: TaskInfo) -> SchedExecEvent {
    SchedExecEvent { pid: task.pid, boottime: task.boottime }
}

/// Whether `frame` is the exec frame of `task`.
pub open spec fn is_exec_frame(frame: CrashTracerEvent, task: TaskInfo) -> bool {
    frame.tag == EventType::SchedExec && frame.payload@ == exec_event_of(task).payload_bytes()
}

/// What the exec program makes of the shared state: one exec frame more in
/// the ring where the ring has room, and nothing else.
pub open spec fn exec_outcome(before: CaptureView, task: TaskInfo, after: CaptureView) -> bool {
    &&& after.ring_capacity == before.ring_capacity
    &&& after.pending_signals == before.pending_signals
    &&& after.stack_dumps == before.stack_dumps
    &&& if before.ring.len() < before.ring_capacity {
        &&& after.ring.len() == before.ring.len() + 1
        &&& after.ring.drop_last() == before.ring
        &&& is_exec_frame(after.ring.last(), task)
    } else {
        after.ring == before.ring
    }
}

/// Runs on `sched_process_exec` in the context of `task`: submits the exec
/// frame of the task. Where the ring is full the event is dropped.
pub fn try_handle_sched_process_exec(state: &mut CaptureState, task: &TaskInfo) -> (r: Result<
    (),
    i64,
>)
    ensures
        final(state)@.contents_wf(),
        r is Ok,
        exec_outcome(old(state)@, *task, final(state)@),
{
    proof {
        use_type_invariant(&*state);
    }
    if !state.has_room() {
        return Ok(());
    }
    let event = SchedExecEvent { pid: task.pid, boottime: task.boottime };
    let frame = CrashTracerEvent::exec(&event);
    state.submit(frame);
    assert(state@.ring.drop_last() =~= old(state)@.ring);
    Ok(())
}

} // verus!
