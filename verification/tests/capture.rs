use crash_tracer::common::{
    CrashTracerEvent, EventType, SchedExecEvent, SchedExitEvent, StackDumpKey,
};
use crash_tracer::db::Registers;
use crash_tracer::programs::sched_process_exec::try_handle_sched_process_exec;
use crash_tracer::programs::sched_process_exit::try_handle_sched_process_exit;
use crash_tracer::programs::side_map::{SideMap, SIDE_MAP_CAPACITY};
use crash_tracer::programs::signal_deliver::{
    capture_stack, handle_signal_deliver, try_handle_signal_deliver, StackIds,
};
use crash_tracer::programs::{
    ring_frames, split_pid_tgid, CaptureState, TaskInfo, READ_FAULT, RING_BYTES,
};

fn task(pid: u32, tid: u32, exit_code: u32) -> TaskInfo {
    TaskInfo {
        pid,
        tid,
        boottime: 1_000 + pid as u64,
        exit_code,
        fault_addr: 0x10,
        comm: *b"nullderef\0\0\0\0\0\0\0",
    }
}

fn regs(rsp: u64) -> Registers {
    Registers {
        rip: 1,
        rsp,
        rbp: 3,
        rax: 4,
        rbx: 5,
        rcx: 6,
        rdx: 7,
        rsi: 8,
        rdi: 9,
        r8: 10,
        r9: 11,
        r10: 12,
        r11: 13,
        r12: 14,
        r13: 15,
        r14: 16,
        r15: 17,
        rflags: 18,
    }
}

fn record(signal: i32, si_code: i32) -> Vec<u8> {
    let mut r = vec![0u8; 32];
    r[8..12].copy_from_slice(&signal.to_le_bytes());
    r[16..20].copy_from_slice(&si_code.to_le_bytes());
    r
}

fn ids() -> StackIds {
    StackIds { kernel_stack_id: 21, user_stack_id: -1 }
}

fn key(t: &TaskInfo) -> StackDumpKey {
    StackDumpKey { pid: t.pid, tid: t.tid, boottime: t.boottime }
}

fn stack(len: usize) -> Vec<u8> {
    (0..len).map(|i| (i % 199) as u8 + 1).collect()
}

#[test]
fn combined_identifier_splits_into_process_and_thread() {
    assert_eq!(split_pid_tgid(0x0000_1092_0000_1093), (0x1092, 0x1093));
    assert_eq!(split_pid_tgid(0), (0, 0));
    assert_eq!(split_pid_tgid(u64::MAX), (u32::MAX, u32::MAX));
    assert_eq!(split_pid_tgid(0xffff_ffff), (0, u32::MAX));
}

#[test]
fn capture_takes_the_largest_read_that_succeeds() {
    for (readable, expected) in [
        (0usize, 0u32),
        (1, 0),
        (2047, 0),
        (2048, 2048),
        (2049, 2048),
        (4095, 2048),
        (4096, 4096),
        (5000, 4096),
        (8191, 4096),
        (8192, 8192),
        (16383, 8192),
        (16384, 16384),
        (20000, 16384),
    ] {
        let bytes = stack(readable);
        let dump = capture_stack(0x7ffd_0000_0000, &bytes);
        assert_eq!(dump.len, expected, "readable {}", readable);
        assert_eq!(dump.rsp, 0x7ffd_0000_0000);
        assert_eq!(dump.captured_bytes(), &bytes[..expected as usize]);
        assert!(dump.data[expected as usize..].iter().all(|b| *b == 0));
        assert!([0, 2048, 4096, 8192, 16384].contains(&dump.len));
    }
}

#[test]
fn exec_submits_one_exec_frame() {
    let mut state = CaptureState::new(8);
    let t = task(10, 10, 0);
    assert_eq!(try_handle_sched_process_exec(&mut state, &t), Ok(()));
    assert_eq!(state.ring_len(), 1);
    assert_eq!(state.pending_len(), 0);
    assert_eq!(state.dump_len(), 0);
    let frame = state.take_frame().unwrap();
    assert_eq!(frame.tag, EventType::SchedExec);
    assert_eq!(frame.as_exec(), Some(SchedExecEvent { pid: 10, boottime: 1_010 }));
    assert_eq!(state.take_frame(), None);
}

#[test]
fn exec_on_a_full_ring_is_dropped() {
    let mut state = CaptureState::new(1);
    try_handle_sched_process_exec(&mut state, &task(1, 1, 0)).unwrap();
    try_handle_sched_process_exec(&mut state, &task(2, 2, 0)).unwrap();
    assert_eq!(state.ring_len(), 1);
    assert_eq!(state.take_frame().unwrap().as_exec().unwrap().pid, 1);
    let mut none = CaptureState::new(0);
    try_handle_sched_process_exec(&mut none, &task(1, 1, 0)).unwrap();
    assert_eq!(none.ring_len(), 0);
}

#[test]
fn only_crash_signals_are_recorded() {
    for signal in -3..40 {
        let mut state = CaptureState::new(8);
        let t = task(10, 11, 0);
        let r = try_handle_signal_deliver(&mut state, &record(signal, 1), &t, &regs(0x7000), ids(), 5, &stack(4096));
        assert_eq!(r, Ok(()));
        let crash = [4, 6, 7, 8, 11].contains(&signal);
        assert_eq!(state.pending_len(), if crash { 1 } else { 0 }, "signal {}", signal);
        assert_eq!(state.dump_len(), if crash { 1 } else { 0 }, "signal {}", signal);
        assert_eq!(state.ring_len(), 0);
    }
}

#[test]
fn the_signal_record_holds_the_context_of_the_task() {
    let mut state = CaptureState::new(8);
    let t = task(10, 11, 139);
    try_handle_signal_deliver(&mut state, &record(11, 2), &t, &regs(0x7000), ids(), 555, &stack(9000)).unwrap();
    try_handle_sched_process_exit(&mut state, &t).unwrap();
    let frame = state.take_frame().unwrap();
    let e = frame.as_signal().unwrap();
    assert_eq!(e.pid, 10);
    assert_eq!(e.tid, 11);
    assert_eq!(e.cmd, t.comm);
    assert_eq!(e.boottime, 1_010);
    assert_eq!(e.signal, 11);
    assert_eq!(e.si_code, 2);
    assert_eq!(e.fault_addr, 0x10);
    assert_eq!(e.timestamp_ns, 555);
    assert_eq!(Registers::from_event(&e), regs(0x7000));
    assert_eq!(e.rbx, 5);
    assert_eq!(e.rcx, 6);
    assert_eq!(e.kernel_stack_id, 21);
    assert_eq!(e.user_stack_id, -1);
    let dump = state.take_stack_dump(&key(&t)).unwrap();
    assert_eq!(dump.rsp, 0x7000);
    assert_eq!(dump.len, 8192);
    assert_eq!(dump.captured_bytes(), &stack(9000)[..8192]);
    assert_eq!(state.take_stack_dump(&key(&t)), None);
}

#[test]
fn a_signal_without_stack_pointer_leaves_no_dump() {
    let mut state = CaptureState::new(8);
    let t = task(10, 11, 139);
    try_handle_signal_deliver(&mut state, &record(11, 1), &t, &regs(0), ids(), 5, &stack(16384)).unwrap();
    assert_eq!(state.pending_len(), 1);
    assert_eq!(state.dump_len(), 0);
    try_handle_sched_process_exit(&mut state, &t).unwrap();
    assert_eq!(state.take_frame().unwrap().as_signal().unwrap().rsp, 0);
    assert_eq!(state.take_stack_dump(&key(&t)), None);
}

#[test]
fn an_unreadable_stack_leaves_an_empty_dump() {
    let mut state = CaptureState::new(8);
    let t = task(10, 11, 139);
    try_handle_signal_deliver(&mut state, &record(11, 1), &t, &regs(0x7000), ids(), 5, &stack(100)).unwrap();
    let dump = state.take_stack_dump(&key(&t)).unwrap();
    assert_eq!(dump.len, 0);
    assert!(dump.captured_bytes().is_empty());
}

#[test]
fn a_record_too_short_to_read_is_an_error() {
    let mut state = CaptureState::new(8);
    let t = task(10, 11, 0);
    let full = record(11, 1);
    assert_eq!(try_handle_signal_deliver(&mut state, &full[..11], &t, &regs(1), ids(), 5, &[]), Err(READ_FAULT));
    assert_eq!(try_handle_signal_deliver(&mut state, &full[..19], &t, &regs(1), ids(), 5, &[]), Err(READ_FAULT));
    assert_eq!(READ_FAULT, -14);
    assert_eq!(state.pending_len(), 0);
    let other = record(17, 1);
    assert_eq!(try_handle_signal_deliver(&mut state, &other[..12], &t, &regs(1), ids(), 5, &[]), Ok(()));
    assert_eq!(try_handle_signal_deliver(&mut state, &full[..20], &t, &regs(1), ids(), 5, &[]), Ok(()));
    assert_eq!(state.pending_len(), 1);
}

#[test]
fn the_entry_point_returns_a_status() {
    let mut state = CaptureState::new(8);
    let t = task(10, 11, 0);
    assert_eq!(handle_signal_deliver(&mut state, &record(11, 1), &t, &regs(1), ids(), 5, &[]), 0);
    assert_eq!(handle_signal_deliver(&mut state, &record(2, 1), &t, &regs(1), ids(), 5, &[]), 0);
    assert_eq!(handle_signal_deliver(&mut state, &[0u8; 4], &t, &regs(1), ids(), 5, &[]), (-14i64) as u32);
}

#[test]
fn the_last_signal_of_a_thread_wins() {
    let mut state = CaptureState::new(8);
    let t = task(10, 11, 134);
    try_handle_signal_deliver(&mut state, &record(11, 1), &t, &regs(0x7000), ids(), 5, &stack(2048)).unwrap();
    try_handle_signal_deliver(&mut state, &record(6, 0), &t, &regs(0x7100), ids(), 6, &stack(4096)).unwrap();
    assert_eq!(state.pending_len(), 1);
    assert_eq!(state.dump_len(), 1);
    try_handle_sched_process_exit(&mut state, &t).unwrap();
    assert_eq!(state.take_frame().unwrap().as_signal().unwrap().signal, 6);
    assert_eq!(state.take_stack_dump(&key(&t)).unwrap().len, 4096);
}

#[test]
fn the_crash_is_submitted_right_before_the_exit() {
    let mut state = CaptureState::new(8);
    let a = task(10, 10, 139);
    let b = task(20, 20, 0);
    try_handle_sched_process_exec(&mut state, &a).unwrap();
    try_handle_signal_deliver(&mut state, &record(11, 1), &a, &regs(0x7000), ids(), 5, &stack(2048)).unwrap();
    try_handle_sched_process_exec(&mut state, &b).unwrap();
    assert_eq!(state.ring_len(), 2);
    try_handle_sched_process_exit(&mut state, &a).unwrap();
    let tags: Vec<EventType> = std::iter::from_fn(|| state.take_frame()).map(|f| f.tag).collect();
    assert_eq!(
        tags,
        vec![EventType::SchedExec, EventType::SchedExec, EventType::SignalDeliver, EventType::SchedExit]
    );
    assert_eq!(state.pending_len(), 0);
    assert_eq!(state.dump_len(), 1);
}

#[test]
fn the_exit_frame_carries_the_exit_code() {
    let mut state = CaptureState::new(8);
    let t = task(10, 10, 139);
    try_handle_sched_process_exit(&mut state, &t).unwrap();
    let frame = state.take_frame().unwrap();
    assert_eq!(frame.as_exit(), Some(SchedExitEvent { pid: 10, exit_code: 139, boottime: 1_010 }));
}

#[test]
fn a_normal_exit_emits_no_crash_and_cleans_up() {
    let mut state = CaptureState::new(8);
    let t = task(10, 10, 0);
    try_handle_signal_deliver(&mut state, &record(11, 1), &t, &regs(0x7000), ids(), 5, &stack(2048)).unwrap();
    try_handle_sched_process_exit(&mut state, &t).unwrap();
    assert_eq!(state.ring_len(), 1);
    assert_eq!(state.take_frame().unwrap().tag, EventType::SchedExit);
    assert_eq!(state.pending_len(), 0);
    assert_eq!(state.dump_len(), 0);
}

#[test]
fn an_exit_code_with_a_status_byte_only_is_no_signal_death() {
    let mut state = CaptureState::new(8);
    let t = task(10, 10, 0x100);
    try_handle_signal_deliver(&mut state, &record(11, 1), &t, &regs(0x7000), ids(), 5, &stack(2048)).unwrap();
    try_handle_sched_process_exit(&mut state, &t).unwrap();
    assert_eq!(state.take_frame().unwrap().tag, EventType::SchedExit);
    assert_eq!(state.take_frame(), None);
}

#[test]
fn a_signal_death_without_a_recorded_signal_emits_only_the_exit() {
    let mut state = CaptureState::new(8);
    let t = task(10, 10, 9);
    try_handle_sched_process_exit(&mut state, &t).unwrap();
    assert_eq!(state.ring_len(), 1);
    assert_eq!(state.take_frame().unwrap().tag, EventType::SchedExit);
}

#[test]
fn threads_of_one_process_have_entries_of_their_own() {
    let mut state = CaptureState::new(8);
    let main = task(10, 10, 139);
    let worker = task(10, 12, 139);
    try_handle_signal_deliver(&mut state, &record(11, 1), &worker, &regs(0x7000), ids(), 5, &stack(2048)).unwrap();
    try_handle_sched_process_exit(&mut state, &main).unwrap();
    assert_eq!(state.take_frame().unwrap().tag, EventType::SchedExit);
    assert_eq!(state.pending_len(), 1);
    try_handle_sched_process_exit(&mut state, &worker).unwrap();
    assert_eq!(state.take_frame().unwrap().tag, EventType::SignalDeliver);
    assert_eq!(state.take_frame().unwrap().tag, EventType::SchedExit);
    assert_eq!(state.pending_len(), 0);
}

#[test]
fn a_full_ring_drops_the_crash_and_cleans_the_side_maps() {
    let mut state = CaptureState::new(1);
    let filler = task(1, 1, 0);
    let t = task(10, 10, 139);
    try_handle_sched_process_exec(&mut state, &filler).unwrap();
    try_handle_signal_deliver(&mut state, &record(11, 1), &t, &regs(0x7000), ids(), 5, &stack(2048)).unwrap();
    assert_eq!(state.pending_len(), 1);
    assert_eq!(state.dump_len(), 1);
    try_handle_sched_process_exit(&mut state, &t).unwrap();
    assert_eq!(state.ring_len(), 1);
    assert_eq!(state.pending_len(), 0);
    assert_eq!(state.dump_len(), 0);
    assert_eq!(state.take_frame().unwrap().tag, EventType::SchedExec);
}

#[test]
fn a_ring_with_room_for_one_frame_takes_the_crash_and_drops_the_exit() {
    let mut state = CaptureState::new(1);
    let t = task(10, 10, 139);
    try_handle_signal_deliver(&mut state, &record(11, 1), &t, &regs(0x7000), ids(), 5, &stack(2048)).unwrap();
    try_handle_sched_process_exit(&mut state, &t).unwrap();
    assert_eq!(state.ring_len(), 1);
    assert_eq!(state.take_frame().unwrap().tag, EventType::SignalDeliver);
    assert_eq!(state.pending_len(), 0);
    assert_eq!(state.dump_len(), 1);
}

#[test]
fn side_map_holds_one_value_per_key() {
    let mut map: SideMap<u32> = SideMap::new();
    let k1 = StackDumpKey { pid: 1, tid: 1, boottime: 1 };
    let k2 = StackDumpKey { pid: 1, tid: 1, boottime: 2 };
    assert_eq!(map.get(&k1), None);
    map.insert(k1, 10);
    map.insert(k2, 20);
    map.insert(k1, 11);
    assert_eq!(map.len(), 2);
    assert_eq!(map.get(&k1), Some(11));
    assert_eq!(map.get(&k2), Some(20));
    assert!(map.remove(&k1));
    assert!(!map.remove(&k1));
    assert_eq!(map.get(&k1), None);
    assert_eq!(map.len(), 1);
}

#[test]
fn a_full_side_map_makes_room_by_dropping_its_oldest_entry() {
    let mut map: SideMap<u32> = SideMap::new();
    let key = |n: u32| StackDumpKey { pid: n, tid: n, boottime: 7 };
    for n in 0..SIDE_MAP_CAPACITY as u32 {
        map.insert(key(n), n);
    }
    assert_eq!(SIDE_MAP_CAPACITY, 64);
    assert_eq!(map.len(), 64);
    map.insert(key(5), 500);
    assert_eq!(map.len(), 64);
    assert_eq!(map.get(&key(0)), Some(0));
    assert_eq!(map.get(&key(5)), Some(500));
    map.insert(key(100), 100);
    assert_eq!(map.len(), 64);
    assert_eq!(map.get(&key(0)), None);
    assert_eq!(map.get(&key(1)), Some(1));
    assert_eq!(map.get(&key(100)), Some(100));
    map.insert(key(101), 101);
    assert_eq!(map.get(&key(1)), None);
    assert_eq!(map.get(&key(5)), Some(500));
}

#[test]
fn more_crashes_than_the_side_maps_hold_keep_the_youngest() {
    let mut state = CaptureState::new(1024);
    for n in 0..100u32 {
        let t = task(1000 + n, 1000 + n, 139);
        try_handle_signal_deliver(&mut state, &record(11, 1), &t, &regs(0x7000), ids(), 5, &stack(2048)).unwrap();
    }
    assert_eq!(state.pending_len(), 64);
    assert_eq!(state.dump_len(), 64);
    try_handle_sched_process_exit(&mut state, &task(1000, 1000, 139)).unwrap();
    assert_eq!(state.take_frame().unwrap().tag, EventType::SchedExit);
    try_handle_sched_process_exit(&mut state, &task(1099, 1099, 139)).unwrap();
    assert_eq!(state.take_frame().unwrap().tag, EventType::SignalDeliver);
}

#[test]
fn frames_leave_the_ring_in_the_order_of_submission() {
    let mut state = CaptureState::new(64);
    for n in 0..20u32 {
        try_handle_sched_process_exec(&mut state, &task(n, n, 0)).unwrap();
    }
    for n in 0..20u32 {
        let frame: CrashTracerEvent = state.take_frame().unwrap();
        assert_eq!(frame.as_exec().unwrap().pid, n);
    }
    assert_eq!(state.take_frame(), None);
}

#[test]
fn ring_capacity_in_frames() {
    assert_eq!(RING_BYTES, 512 * 1024);
    assert_eq!(ring_frames(RING_BYTES), 2340);
    assert_eq!(ring_frames(223), 0);
    assert_eq!(ring_frames(224), 1);
}
