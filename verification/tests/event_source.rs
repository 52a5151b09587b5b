use crash_tracer::common::{
    CrashTracerEvent, FrameError, SchedExecEvent, SchedExitEvent, SignalDeliverEvent,
};
use crash_tracer::event::unified_source::UnifiedEventSource;
use crash_tracer::event::{Event, EventSource};
use crash_tracer::programs::sched_process_exec::try_handle_sched_process_exec;
use crash_tracer::programs::sched_process_exit::try_handle_sched_process_exit;
use crash_tracer::programs::{CaptureState, TaskInfo};

fn exec(pid: u32) -> Vec<u8> {
    CrashTracerEvent::exec(&SchedExecEvent { pid, boottime: 9 }).to_bytes()
}

fn exit(pid: u32, exit_code: u32) -> Vec<u8> {
    CrashTracerEvent::exit(&SchedExitEvent { pid, exit_code, boottime: 9 }).to_bytes()
}

fn signal(pid: u32) -> (SignalDeliverEvent, Vec<u8>) {
    let mut e = SignalDeliverEvent::zeroed();
    e.pid = pid;
    e.signal = 11;
    e.boottime = 9;
    (e, CrashTracerEvent::signal(&e).to_bytes())
}

fn unknown_tag() -> Vec<u8> {
    let mut bytes = exec(1);
    bytes[0] = 9;
    bytes
}

#[test]
fn decode_gives_the_event_of_the_frame() {
    assert_eq!(Event::decode(&exec(7)), Ok(Event::SchedExec(SchedExecEvent { pid: 7, boottime: 9 })));
    assert_eq!(
        Event::decode(&exit(7, 139)),
        Ok(Event::SchedExit(SchedExitEvent { pid: 7, exit_code: 139, boottime: 9 }))
    );
    let (e, bytes) = signal(7);
    assert_eq!(Event::decode(&bytes), Ok(Event::SignalDeliver(e)));
    assert_eq!(Event::decode(&bytes[..100]), Err(FrameError::TooShort { len: 100 }));
    assert_eq!(Event::decode(&unknown_tag()), Err(FrameError::UnknownTag { tag: 9 }));
}

#[test]
fn an_empty_source_has_no_event() {
    let mut source = UnifiedEventSource::new();
    assert_eq!(source.len(), 0);
    assert_eq!(source.next_event(), None);
    assert_eq!(source.next_frame(), None);
    assert!(source.drain().is_empty());
}

#[test]
fn events_come_out_in_the_order_of_the_chunks() {
    let mut source = UnifiedEventSource::new();
    let (crash, crash_bytes) = signal(2);
    source.push_chunk(exec(1));
    source.push_chunk(exec(2));
    source.push_chunk(crash_bytes);
    source.push_chunk(exit(2, 139));
    assert_eq!(source.len(), 4);
    assert_eq!(source.next_event(), Some(Event::SchedExec(SchedExecEvent { pid: 1, boottime: 9 })));
    assert_eq!(source.next_event(), Some(Event::SchedExec(SchedExecEvent { pid: 2, boottime: 9 })));
    assert_eq!(source.next_event(), Some(Event::SignalDeliver(crash)));
    assert_eq!(
        source.next_event(),
        Some(Event::SchedExit(SchedExitEvent { pid: 2, exit_code: 139, boottime: 9 }))
    );
    assert_eq!(source.next_event(), None);
}

#[test]
fn chunks_that_are_no_frames_are_skipped() {
    let mut source = UnifiedEventSource::new();
    source.push_chunk(vec![1, 2, 3]);
    source.push_chunk(unknown_tag());
    source.push_chunk(exec(5));
    source.push_chunk(vec![]);
    source.push_chunk(exec(6));
    source.push_chunk(vec![0; 223]);
    assert_eq!(source.next_event(), Some(Event::SchedExec(SchedExecEvent { pid: 5, boottime: 9 })));
    assert_eq!(source.len(), 3);
    assert_eq!(source.next_event(), Some(Event::SchedExec(SchedExecEvent { pid: 6, boottime: 9 })));
    assert_eq!(source.len(), 1);
    assert_eq!(source.next_event(), None);
    assert_eq!(source.len(), 0);
}

#[test]
fn next_frame_says_why_a_chunk_is_no_frame() {
    let mut source = UnifiedEventSource::new();
    source.push_chunk(vec![1, 2, 3]);
    source.push_chunk(unknown_tag());
    source.push_chunk(exec(5));
    assert_eq!(source.next_frame(), Some(Err(FrameError::TooShort { len: 3 })));
    assert_eq!(source.next_frame(), Some(Err(FrameError::UnknownTag { tag: 9 })));
    assert_eq!(
        source.next_frame(),
        Some(Ok(Event::SchedExec(SchedExecEvent { pid: 5, boottime: 9 })))
    );
    assert_eq!(source.next_frame(), None);
}

#[test]
fn drain_keeps_the_order_and_drops_what_is_no_frame() {
    let mut source = UnifiedEventSource::new();
    for pid in 0..50u32 {
        source.push_chunk(exec(pid));
        if pid % 7 == 0 {
            source.push_chunk(vec![0xff; 10]);
        }
    }
    let events = source.drain();
    assert_eq!(events.len(), 50);
    for (pid, event) in events.iter().enumerate() {
        assert_eq!(*event, Event::SchedExec(SchedExecEvent { pid: pid as u32, boottime: 9 }));
    }
    assert_eq!(source.len(), 0);
}

#[test]
fn the_ring_is_read_in_the_order_of_submission() {
    let mut kernel = CaptureState::new(16);
    let mut source = UnifiedEventSource::new();
    source.push_chunk(exec(1));
    for pid in 2..6u32 {
        let task = TaskInfo { pid, tid: pid, boottime: 9, exit_code: 0, fault_addr: 0, comm: [0; 16] };
        try_handle_sched_process_exec(&mut kernel, &task).unwrap();
        try_handle_sched_process_exit(&mut kernel, &task).unwrap();
    }
    source.read_ring(&mut kernel);
    assert_eq!(kernel.ring_len(), 0);
    assert_eq!(source.len(), 9);
    let events = source.drain();
    let mut expected = vec![Event::SchedExec(SchedExecEvent { pid: 1, boottime: 9 })];
    for pid in 2..6u32 {
        expected.push(Event::SchedExec(SchedExecEvent { pid, boottime: 9 }));
        expected.push(Event::SchedExit(SchedExitEvent { pid, exit_code: 0, boottime: 9 }));
    }
    assert_eq!(events, expected);
    source.read_ring(&mut kernel);
    assert_eq!(source.len(), 0);
}
