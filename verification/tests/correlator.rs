use crash_tracer::common::{SchedExecEvent, SchedExitEvent, SignalDeliverEvent, StackDumpKey};
use crash_tracer::correlator::{Correlator, ExecOutcome};
use crash_tracer::db::rows::CrashStatus;
use crash_tracer::db::Registers;
use crash_tracer::event::unified_source::UnifiedEventSource;
use crash_tracer::event::{Event, EventSource};
use crash_tracer::programs::sched_process_exec::try_handle_sched_process_exec;
use crash_tracer::programs::sched_process_exit::try_handle_sched_process_exit;
use crash_tracer::programs::signal_deliver::{try_handle_signal_deliver, StackIds};
use crash_tracer::programs::{CaptureState, TaskInfo};
use crash_tracer::state::map::ProcSnapshot;

fn task(pid: u32, comm: &[u8], exit_code: u32) -> TaskInfo {
    let mut name = [0u8; 16];
    name[..comm.len()].copy_from_slice(comm);
    TaskInfo { pid, tid: pid, boottime: 77_000 + pid as u64, exit_code, fault_addr: 0, comm: name }
}

fn regs(rsp: u64) -> Registers {
    Registers {
        rip: 0x401136,
        rsp,
        rbp: rsp + 16,
        rax: 0,
        rbx: 0,
        rcx: 0,
        rdx: 0,
        rsi: 0,
        rdi: 0,
        r8: 0,
        r9: 0,
        r10: 0,
        r11: 0,
        r12: 0,
        r13: 0,
        r14: 0,
        r15: 0,
        rflags: 0x10246,
    }
}

fn record(signal: i32, si_code: i32) -> Vec<u8> {
    let mut r = vec![0u8; 24];
    r[8..12].copy_from_slice(&signal.to_le_bytes());
    r[16..20].copy_from_slice(&si_code.to_le_bytes());
    r
}

fn snapshot(lines: &[&str]) -> ProcSnapshot {
    ProcSnapshot {
        maps: Some(lines.iter().map(|l| l.to_string()).collect()),
        cwd: Some(String::from("/home/user")),
        cmdline: Some(b"./nullderef\0".to_vec()),
    }
}

fn pump(kernel: &mut CaptureState, source: &mut UnifiedEventSource) {
    source.read_ring(kernel);
}

struct Seen {
    reports: Vec<(String, String)>,
    consoles: Vec<String>,
    unknown_crashes: Vec<u32>,
}

/// Consumes the events of the source as the event loop does.
fn consume(
    kernel: &mut CaptureState,
    source: &mut UnifiedEventSource,
    correlator: &mut Correlator,
    maps_of: &dyn Fn(u32) -> Option<ProcSnapshot>,
) -> Seen {
    let mut seen = Seen { reports: vec![], consoles: vec![], unknown_crashes: vec![] };
    while let Some(event) = source.next_event() {
        match event {
            Event::SchedExec(exec) => {
                let snap = maps_of(exec.pid).unwrap_or(ProcSnapshot { maps: None, cwd: None, cmdline: None });
                correlator.handle_sched_exec_event(&exec, snap, &vec![]);
            }
            Event::SignalDeliver(signal) => {
                let key = StackDumpKey { pid: signal.pid, tid: signal.tid, boottime: signal.boottime };
                let dump = kernel.take_stack_dump(&key);
                let frames = Correlator::wanted_stack_trace(&signal).map(|id| vec![0x401136, 0x401000 + id as u64, 0]);
                let outcome = correlator.handle_signal_deliver_event(&signal, frames.as_ref(), dump.as_ref());
                if outcome.stored == Ok(None) {
                    seen.unknown_crashes.push(signal.pid);
                }
                seen.consoles.push(String::from_utf8(outcome.console).unwrap());
            }
            Event::SchedExit(exit) => {
                let outcome = correlator.handle_sched_exit_event(&exit);
                if let Some(report) = outcome.report {
                    seen.reports.push((
                        String::from_utf8(report.file_name).unwrap(),
                        String::from_utf8(report.contents).unwrap(),
                    ));
                }
            }
        }
    }
    seen
}

#[test]
fn null_dereference_in_a_c_binary() {
    let mut kernel = CaptureState::new(64);
    let mut source = UnifiedEventSource::new();
    let mut correlator = Correlator::new();
    let stack: Vec<u8> = (0..5000).map(|i| (i % 256) as u8).collect();

    let running = task(4242, b"nullderef", 0);
    try_handle_sched_process_exec(&mut kernel, &running).unwrap();
    try_handle_signal_deliver(
        &mut kernel,
        &record(11, 1),
        &running,
        &regs(0x7ffd_0000_1000),
        StackIds { kernel_stack_id: -1, user_stack_id: 5 },
        1_000,
        &stack,
    )
    .unwrap();
    pump(&mut kernel, &mut source);
    let seen = consume(&mut kernel, &mut source, &mut correlator, &|_| {
        Some(snapshot(&["00400000-00401000 r-xp 00000000 08:01 1 /home/user/nullderef"]))
    });
    assert!(seen.reports.is_empty());
    assert!(seen.consoles.is_empty());
    assert_eq!(correlator.db.processes().len(), 1);
    assert_eq!(correlator.db.processes()[0].runtime, "Native");
    assert!(correlator.db.crashes().is_empty());
    assert!(correlator.cache.get(4242, 81_242).is_some());

    let dying = task(4242, b"nullderef", 139);
    try_handle_sched_process_exit(&mut kernel, &dying).unwrap();
    pump(&mut kernel, &mut source);
    let seen = consume(&mut kernel, &mut source, &mut correlator, &|_| None);

    assert_eq!(correlator.db.processes().len(), 1);
    assert_eq!(correlator.db.crashes().len(), 1);
    let crash = &correlator.db.crashes()[0];
    assert_eq!(crash.signal, 11);
    assert_eq!(crash.si_code, 1);
    assert_eq!(crash.fault_addr, 0);
    assert_eq!(crash.status, CrashStatus::Complete);
    assert_eq!(crash.exit_code.unwrap() & 0x7f, 11);
    assert_eq!(correlator.db.stack_dumps().len(), 1);
    assert_eq!(correlator.db.stack_dumps()[0].length, 4096);
    assert!([2048, 4096, 8192, 16384].contains(&correlator.db.stack_dumps()[0].length));
    assert_eq!(correlator.db.stack_frames().len(), 3);
    assert!(correlator.cache.get(4242, 81_242).is_none());
    assert_eq!(kernel.pending_len(), 0);
    assert_eq!(kernel.dump_len(), 0);

    assert_eq!(seen.consoles.len(), 1);
    assert!(seen.consoles[0].contains("Signal:  SIGSEGV (11)\n"));
    assert!(seen.consoles[0].contains("Detected Runtime: Native\n"));
    assert!(seen.consoles[0].contains("User Stack:\n"));
    assert!(!seen.consoles[0].contains("Raw Stack"));
    assert!(!seen.consoles[0].contains("Memory Maps"));

    assert_eq!(seen.reports.len(), 1);
    let (name, text) = &seen.reports[0];
    assert!(name.starts_with("crash_nullderef_4242_"), "{}", name);
    assert!(name.ends_with(".txt"));
    assert!(text.lines().any(|l| l == "Code:    SEGV_MAPERR (1)"));
    assert!(text.lines().any(|l| l == "Signal:  SIGSEGV (11)"));
    assert!(text.lines().any(|l| l == "Exit:    139"));
    assert!(text.lines().any(|l| l == "Process: nullderef (PID: 4242, TID: 4242)"));
    assert!(text.lines().any(|l| l == "Raw Stack (4096 bytes from 0x00007ffd00001000)"));
    assert!(text.lines().any(|l| l == "00400000-00401000 r-xp 00000000 08:01 1 /home/user/nullderef"));
    assert!(!text.contains("Fault:"));
}

#[test]
fn divide_by_zero() {
    let mut kernel = CaptureState::new(64);
    let mut source = UnifiedEventSource::new();
    let mut correlator = Correlator::new();
    let t = task(900, b"divzero", 136);
    try_handle_sched_process_exec(&mut kernel, &t).unwrap();
    try_handle_signal_deliver(
        &mut kernel,
        &record(8, 1),
        &t,
        &regs(0x7ffd_0000_2000),
        StackIds { kernel_stack_id: -1, user_stack_id: -1 },
        1,
        &[0u8; 2048],
    )
    .unwrap();
    try_handle_sched_process_exit(&mut kernel, &t).unwrap();
    pump(&mut kernel, &mut source);
    let seen = consume(&mut kernel, &mut source, &mut correlator, &|_| Some(snapshot(&[])));
    assert_eq!(seen.reports.len(), 1);
    let text = &seen.reports[0].1;
    assert!(text.contains("Signal:  SIGFPE (8)\n"));
    assert!(text.contains("Code:    FPE_INTDIV (1)\n"));
    assert!(!text.contains("User Stack:"));
    assert!(correlator.db.stack_frames().is_empty());
}

#[test]
fn normal_exit() {
    let mut kernel = CaptureState::new(64);
    let mut source = UnifiedEventSource::new();
    let mut correlator = Correlator::new();
    let t = task(55, b"true", 0);
    try_handle_sched_process_exec(&mut kernel, &t).unwrap();
    pump(&mut kernel, &mut source);
    consume(&mut kernel, &mut source, &mut correlator, &|_| Some(snapshot(&["a /bin/true"])));
    assert_eq!(correlator.db.processes().len(), 1);
    assert_eq!(correlator.db.memory_maps().len(), 1);
    assert_eq!(correlator.cache.len(), 1);

    try_handle_sched_process_exit(&mut kernel, &t).unwrap();
    pump(&mut kernel, &mut source);
    let seen = consume(&mut kernel, &mut source, &mut correlator, &|_| None);
    assert!(seen.reports.is_empty());
    assert!(correlator.db.processes().is_empty());
    assert!(correlator.db.memory_maps().is_empty());
    assert!(correlator.db.crashes().is_empty());
    assert_eq!(correlator.cache.len(), 0);
}

#[test]
fn jvm_crash() {
    let mut kernel = CaptureState::new(64);
    let mut source = UnifiedEventSource::new();
    let mut correlator = Correlator::new();
    let t = task(321, b"java", 134);
    try_handle_sched_process_exec(&mut kernel, &t).unwrap();
    try_handle_signal_deliver(
        &mut kernel,
        &record(6, 0),
        &t,
        &regs(0x7ffd_0000_3000),
        StackIds { kernel_stack_id: 1, user_stack_id: 2 },
        1,
        &[0u8; 16384],
    )
    .unwrap();
    try_handle_sched_process_exit(&mut kernel, &t).unwrap();
    pump(&mut kernel, &mut source);
    let seen = consume(&mut kernel, &mut source, &mut correlator, &|_| {
        Some(snapshot(&[
            "00400000-00401000 r-xp 00000000 08:01 1 /opt/jdk/bin/java",
            "7f0000000000-7f0000100000 r-xp 00000000 08:01 2 /opt/jdk/lib/server/libjvm.so",
        ]))
    });
    assert_eq!(correlator.db.processes()[0].runtime, "Jvm");
    assert_eq!(seen.reports.len(), 1);
    assert!(seen.reports[0].1.contains("\nDetected Runtime: Jvm\n"));
    assert!(seen.reports[0].1.contains("Signal:  SIGABRT (6)\n"));
    assert!(seen.reports[0].1.contains("Code:    UNKNOWN (0)\n"));
}

#[test]
fn tracer_started_mid_run() {
    let mut kernel = CaptureState::new(64);
    let mut source = UnifiedEventSource::new();
    let mut correlator = Correlator::new();
    let t = task(700, b"oldtimer", 139);
    try_handle_signal_deliver(
        &mut kernel,
        &record(11, 1),
        &t,
        &regs(0x7ffd_0000_4000),
        StackIds { kernel_stack_id: 1, user_stack_id: 2 },
        1,
        &[0u8; 4096],
    )
    .unwrap();
    try_handle_sched_process_exit(&mut kernel, &t).unwrap();
    pump(&mut kernel, &mut source);
    let seen = consume(&mut kernel, &mut source, &mut correlator, &|_| None);
    assert_eq!(seen.unknown_crashes, vec![700]);
    assert!(seen.reports.is_empty());
    assert!(correlator.db.processes().is_empty());
    assert!(correlator.db.memory_maps().is_empty());
    assert!(correlator.db.crashes().is_empty());
    assert!(correlator.db.stack_frames().is_empty());
    assert!(correlator.db.stack_dumps().is_empty());
    assert!(correlator.db.artifacts().is_empty());
}

#[test]
fn ring_saturation() {
    let mut kernel = CaptureState::new(300);
    let mut source = UnifiedEventSource::new();
    let mut correlator = Correlator::new();
    let stack = vec![7u8; 2048];
    for n in 0..1000u32 {
        let t = task(10_000 + n, b"burst", 139);
        try_handle_sched_process_exec(&mut kernel, &t).unwrap();
        try_handle_signal_deliver(
            &mut kernel,
            &record(11, 1),
            &t,
            &regs(0x7ffd_0000_0000 + n as u64 * 16),
            StackIds { kernel_stack_id: -1, user_stack_id: n as i64 },
            n as u64,
            &stack,
        )
        .unwrap();
    }
    for n in 0..1000u32 {
        try_handle_sched_process_exit(&mut kernel, &task(10_000 + n, b"burst", 139)).unwrap();
    }
    assert_eq!(kernel.ring_len(), 300);
    assert_eq!(kernel.pending_len(), 0);
    assert_eq!(kernel.dump_len(), 0);
    pump(&mut kernel, &mut source);
    let seen = consume(&mut kernel, &mut source, &mut correlator, &|_| Some(snapshot(&["x /bin/burst"])));
    assert!(seen.reports.is_empty());
    assert_eq!(correlator.db.processes().len(), 300);
    for crash in correlator.db.crashes() {
        assert!(correlator.db.processes().iter().any(|p| p.id == crash.process_id));
        let dumps = correlator.db.stack_dumps().iter().filter(|d| d.crash_id == crash.id).count();
        assert!(dumps <= 1);
    }
    for frame in correlator.db.stack_frames() {
        assert!(correlator.db.crashes().iter().any(|c| c.id == frame.crash_id));
    }
    for dump in correlator.db.stack_dumps() {
        assert!(correlator.db.crashes().iter().any(|c| c.id == dump.crash_id));
    }
}

#[test]
fn ring_saturation_with_crashes_in_flight() {
    let mut kernel = CaptureState::new(50);
    let mut source = UnifiedEventSource::new();
    let mut correlator = Correlator::new();
    let stack = vec![7u8; 2048];
    let mut reports = 0;
    for n in 0..1000u32 {
        let t = task(10_000 + n, b"burst", 139);
        try_handle_sched_process_exec(&mut kernel, &t).unwrap();
        try_handle_signal_deliver(
            &mut kernel,
            &record(11, 1),
            &t,
            &regs(0x7ffd_0000_0000),
            StackIds { kernel_stack_id: -1, user_stack_id: 3 },
            n as u64,
            &stack,
        )
        .unwrap();
        try_handle_sched_process_exit(&mut kernel, &t).unwrap();
        if n % 40 == 39 {
            pump(&mut kernel, &mut source);
            let seen = consume(&mut kernel, &mut source, &mut correlator, &|_| Some(snapshot(&[])));
            reports += seen.reports.len();
        }
    }
    assert!(reports > 0);
    assert!(reports < 1000);
    assert_eq!(correlator.db.crashes().iter().filter(|c| c.status == CrashStatus::Complete).count(), reports);
    for crash in correlator.db.crashes() {
        assert!(correlator.db.processes().iter().any(|p| p.id == crash.process_id));
        assert!(correlator.db.stack_dumps().iter().filter(|d| d.crash_id == crash.id).count() <= 1);
        if crash.status == CrashStatus::Complete {
            assert_eq!(crash.exit_code, Some(139));
        }
    }
    assert!(kernel.dump_len() <= 64);
    assert_eq!(kernel.pending_len(), 0);
}

#[test]
fn exec_without_a_memory_map_is_skipped() {
    let mut correlator = Correlator::new();
    let exec = SchedExecEvent { pid: 5, boottime: 6 };
    let outcome = correlator.handle_sched_exec_event(
        &exec,
        ProcSnapshot { maps: None, cwd: None, cmdline: None },
        &vec![],
    );
    assert_eq!(outcome, ExecOutcome::Skipped);
    assert_eq!(correlator.cache.len(), 0);
    assert!(correlator.db.processes().is_empty());
    let outcome = correlator.handle_sched_exec_event(&exec, snapshot(&["a"]), &vec![]);
    assert_eq!(outcome, ExecOutcome::Stored(1));
    assert!(!correlator.needs_liveness_probe());
}

#[test]
fn frames_and_dump_are_stored_only_where_the_record_has_them() {
    let mut correlator = Correlator::new();
    correlator.handle_sched_exec_event(&SchedExecEvent { pid: 5, boottime: 6 }, snapshot(&[]), &vec![]);
    let mut e = SignalDeliverEvent::zeroed();
    e.pid = 5;
    e.boottime = 6;
    e.signal = 11;
    let frames = vec![1u64, 2];
    let dump = crash_tracer::programs::signal_deliver::capture_stack(0x1000, &[1u8; 2048]);
    assert_eq!(Correlator::wanted_stack_trace(&e), None);
    let first = correlator.handle_signal_deliver_event(&e, Some(&frames), Some(&dump));
    assert_eq!(first.stored, Ok(Some(1)));
    assert!(correlator.db.stack_frames().is_empty());
    assert!(correlator.db.stack_dumps().is_empty());
    e.user_stack_id = 0;
    e.rsp = 0x1000;
    assert_eq!(Correlator::wanted_stack_trace(&e), Some(0));
    let second = correlator.handle_signal_deliver_event(&e, Some(&frames), Some(&dump));
    assert_eq!(second.stored, Ok(Some(2)));
    assert_eq!(correlator.db.stack_frames().len(), 2);
    assert_eq!(correlator.db.stack_dumps().len(), 1);
}

#[test]
fn exit_of_a_process_without_crash_purges_it() {
    let mut correlator = Correlator::new();
    correlator.handle_sched_exec_event(&SchedExecEvent { pid: 5, boottime: 6 }, snapshot(&["a", "b"]), &vec![]);
    correlator.handle_sched_exec_event(&SchedExecEvent { pid: 7, boottime: 8 }, snapshot(&["c"]), &vec![]);
    let outcome = correlator.handle_sched_exit_event(&SchedExitEvent { pid: 5, exit_code: 0, boottime: 6 });
    assert_eq!(outcome.completed, None);
    assert_eq!(outcome.report, None);
    assert_eq!(correlator.db.processes().len(), 1);
    assert_eq!(correlator.db.processes()[0].pid, 7);
    assert_eq!(correlator.db.memory_maps().len(), 1);
    assert_eq!(correlator.cache.len(), 1);
    assert!(correlator.cache.get(7, 8).is_some());
}

#[test]
fn a_full_store_is_told_apart_from_a_missed_exec() {
    let mut correlator = Correlator {
        cache: crash_tracer::state::map::MemoryMap::new(),
        db: crash_tracer::db::CrashDb::with_first_ids(i64::MAX, i64::MAX),
    };
    let exec = SchedExecEvent { pid: 5, boottime: 6 };
    assert_eq!(correlator.handle_sched_exec_event(&exec, snapshot(&["a"]), &vec![]), ExecOutcome::StoreFull);
    assert_eq!(correlator.cache.len(), 1);
    assert!(correlator.db.processes().is_empty());

    let mut correlator = Correlator {
        cache: crash_tracer::state::map::MemoryMap::new(),
        db: crash_tracer::db::CrashDb::with_first_ids(1, i64::MAX),
    };
    assert_eq!(correlator.handle_sched_exec_event(&exec, snapshot(&["a"]), &vec![]), ExecOutcome::Stored(1));
    let mut e = SignalDeliverEvent::zeroed();
    e.pid = 5;
    e.boottime = 6;
    e.signal = 11;
    let outcome = correlator.handle_signal_deliver_event(&e, None, None);
    assert_eq!(outcome.stored, Err(crash_tracer::db::StoreError::Full));
    e.pid = 6;
    let outcome = correlator.handle_signal_deliver_event(&e, None, None);
    assert_eq!(outcome.stored, Ok(None));
}
