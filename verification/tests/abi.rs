use crash_tracer::bytes::{push_i32_le, push_u32_le, push_u64_le, read_i32_le, read_i64_le, read_u32_le, read_u64_le};
use crash_tracer::common::{
    CrashTracerEvent, EventType, FrameError, SchedExecEvent, SchedExitEvent, SignalDeliverEvent,
    StackDump, StackDumpKey, FRAME_SIZE, PAYLOAD_SIZE, SIGABRT, SIGBUS, SIGFPE, SIGILL, SIGSEGV,
    STACK_DUMP_SIZE,
};

fn sample_signal() -> SignalDeliverEvent {
    let mut cmd = [0u8; 16];
    cmd[..9].copy_from_slice(b"nullderef");
    SignalDeliverEvent {
        pid: 4242,
        tid: 4243,
        cmd,
        boottime: 0x0102_0304_0506_0708,
        signal: 11,
        si_code: 1,
        fault_addr: 0,
        timestamp_ns: 1_700_000_000_123_456_789,
        rip: 0x401136,
        rsp: 0x7ffd_0000_1000,
        rbp: 0x7ffd_0000_1010,
        rax: 1,
        rbx: 2,
        rcx: 3,
        rdx: 4,
        rsi: 5,
        rdi: 6,
        r8: 7,
        r9: 8,
        r10: 9,
        r11: 10,
        r12: 11,
        r13: 12,
        r14: 13,
        r15: u64::MAX,
        rflags: 0x10246,
        kernel_stack_id: -1,
        user_stack_id: 17,
    }
}

#[test]
fn crash_signals_are_exactly_the_five() {
    for sig in -5..70 {
        let expected = sig == 4 || sig == 6 || sig == 7 || sig == 8 || sig == 11;
        assert_eq!(SignalDeliverEvent::is_crash_signal(sig), expected, "signal {}", sig);
    }
    assert!(SignalDeliverEvent::is_crash_signal(SIGILL));
    assert!(SignalDeliverEvent::is_crash_signal(SIGABRT));
    assert!(SignalDeliverEvent::is_crash_signal(SIGBUS));
    assert!(SignalDeliverEvent::is_crash_signal(SIGFPE));
    assert!(SignalDeliverEvent::is_crash_signal(SIGSEGV));
    assert!(!SignalDeliverEvent::is_crash_signal(17));
    assert!(!SignalDeliverEvent::is_crash_signal(i32::MIN));
}

#[test]
fn zeroed_record_is_all_zero_but_the_stack_handles() {
    let e = SignalDeliverEvent::zeroed();
    let mut expected = sample_signal();
    expected.pid = 0;
    expected.tid = 0;
    expected.cmd = [0u8; 16];
    expected.boottime = 0;
    expected.signal = 0;
    expected.si_code = 0;
    expected.timestamp_ns = 0;
    expected.rip = 0;
    expected.rsp = 0;
    expected.rbp = 0;
    expected.rax = 0;
    expected.rbx = 0;
    expected.rcx = 0;
    expected.rdx = 0;
    expected.rsi = 0;
    expected.rdi = 0;
    expected.r8 = 0;
    expected.r9 = 0;
    expected.r10 = 0;
    expected.r11 = 0;
    expected.r12 = 0;
    expected.r13 = 0;
    expected.r14 = 0;
    expected.r15 = 0;
    expected.rflags = 0;
    expected.kernel_stack_id = -1;
    expected.user_stack_id = -1;
    assert_eq!(e, expected);
}

#[test]
fn discriminants_have_their_wire_values() {
    assert_eq!(EventType::SchedExec.to_tag(), 0);
    assert_eq!(EventType::SignalDeliver.to_tag(), 1);
    assert_eq!(EventType::SchedExit.to_tag(), 2);
    assert_eq!(EventType::from_tag(0), Some(EventType::SchedExec));
    assert_eq!(EventType::from_tag(1), Some(EventType::SignalDeliver));
    assert_eq!(EventType::from_tag(2), Some(EventType::SchedExit));
    assert_eq!(EventType::from_tag(3), None);
    assert_eq!(EventType::from_tag(u32::MAX), None);
}

#[test]
fn little_endian_reads_and_writes_agree() {
    let mut out = Vec::new();
    push_u32_le(&mut out, 0x0403_0201);
    push_u64_le(&mut out, 0x0807_0605_0403_0201);
    push_i32_le(&mut out, -2);
    assert_eq!(out, vec![1, 2, 3, 4, 1, 2, 3, 4, 5, 6, 7, 8, 0xfe, 0xff, 0xff, 0xff]);
    assert_eq!(read_u32_le(&out, 0), 0x0403_0201);
    assert_eq!(read_u64_le(&out, 4), 0x0807_0605_0403_0201);
    assert_eq!(read_i32_le(&out, 12), -2);
    assert_eq!(read_i64_le(&[0xff; 8], 0), -1);
    assert_eq!(read_u32_le(&[0, 0, 0, 0x80], 0), 0x8000_0000);
}

#[test]
fn exec_frame_has_the_fixed_layout() {
    let e = SchedExecEvent { pid: 0x0102_0304, boottime: 0x1112_1314_1516_1718 };
    let bytes = CrashTracerEvent::exec(&e).to_bytes();
    assert_eq!(bytes.len(), FRAME_SIZE);
    assert_eq!(FRAME_SIZE, 224);
    assert_eq!(PAYLOAD_SIZE, 216);
    assert_eq!(&bytes[0..8], &[0, 0, 0, 0, 0, 0, 0, 0]);
    assert_eq!(&bytes[8..12], &[4, 3, 2, 1]);
    assert_eq!(&bytes[12..16], &[0, 0, 0, 0]);
    assert_eq!(&bytes[16..24], &[0x18, 0x17, 0x16, 0x15, 0x14, 0x13, 0x12, 0x11]);
    assert!(bytes[24..].iter().all(|b| *b == 0));
}

#[test]
fn exit_frame_has_the_fixed_layout() {
    let e = SchedExitEvent { pid: 7, exit_code: 139, boottime: 9 };
    let bytes = CrashTracerEvent::exit(&e).to_bytes();
    assert_eq!(&bytes[0..4], &[2, 0, 0, 0]);
    assert_eq!(&bytes[8..12], &[7, 0, 0, 0]);
    assert_eq!(&bytes[12..16], &[139, 0, 0, 0]);
    assert_eq!(&bytes[16..24], &[9, 0, 0, 0, 0, 0, 0, 0]);
}

#[test]
fn signal_frame_has_the_fixed_layout() {
    let e = sample_signal();
    let bytes = CrashTracerEvent::signal(&e).to_bytes();
    assert_eq!(&bytes[0..4], &[1, 0, 0, 0]);
    let p = &bytes[8..];
    assert_eq!(read_u32_le(p, 0), 4242);
    assert_eq!(read_u32_le(p, 4), 4243);
    assert_eq!(&p[8..24], &e.cmd);
    assert_eq!(read_u64_le(p, 24), e.boottime);
    assert_eq!(read_i32_le(p, 32), 11);
    assert_eq!(read_i32_le(p, 36), 1);
    assert_eq!(read_u64_le(p, 40), 0);
    assert_eq!(read_u64_le(p, 48), e.timestamp_ns);
    assert_eq!(read_u64_le(p, 56), e.rip);
    assert_eq!(read_u64_le(p, 64), e.rsp);
    assert_eq!(read_u64_le(p, 72), e.rbp);
    assert_eq!(read_u64_le(p, 184), u64::MAX);
    assert_eq!(read_u64_le(p, 192), e.rflags);
    assert_eq!(read_i64_le(p, 200), -1);
    assert_eq!(read_i64_le(p, 208), 17);
}

#[test]
fn records_survive_the_wire() {
    let exec = SchedExecEvent { pid: u32::MAX, boottime: u64::MAX };
    let exit = SchedExitEvent { pid: 1, exit_code: u32::MAX, boottime: 0 };
    let mut signal = sample_signal();
    signal.signal = -7;
    signal.kernel_stack_id = i64::MIN;

    let f = CrashTracerEvent::from_bytes(&CrashTracerEvent::exec(&exec).to_bytes()).unwrap();
    assert_eq!(f.tag, EventType::SchedExec);
    assert_eq!(f.as_exec(), Some(exec));
    assert_eq!(f.as_exit(), None);
    assert_eq!(f.as_signal(), None);

    let f = CrashTracerEvent::from_bytes(&CrashTracerEvent::exit(&exit).to_bytes()).unwrap();
    assert_eq!(f.tag, EventType::SchedExit);
    assert_eq!(f.as_exit(), Some(exit));
    assert_eq!(f.as_exec(), None);

    let f = CrashTracerEvent::from_bytes(&CrashTracerEvent::signal(&signal).to_bytes()).unwrap();
    assert_eq!(f.tag, EventType::SignalDeliver);
    assert_eq!(f.as_signal(), Some(signal));
    assert_eq!(f.as_exec(), None);
    assert_eq!(f.as_exit(), None);
}

#[test]
fn the_discriminant_alone_selects_the_record() {
    let mut frame = CrashTracerEvent::signal(&sample_signal());
    frame.tag = EventType::SchedExec;
    assert_eq!(
        frame.as_exec(),
        Some(SchedExecEvent { pid: 4242, boottime: u64::from_le_bytes(*b"nulldere") })
    );
    assert_eq!(frame.as_signal(), None);
}

#[test]
fn short_chunks_are_rejected() {
    assert_eq!(CrashTracerEvent::from_bytes(&[]), Err(FrameError::TooShort { len: 0 }));
    assert_eq!(CrashTracerEvent::from_bytes(&[0u8; 223]), Err(FrameError::TooShort { len: 223 }));
    assert!(CrashTracerEvent::from_bytes(&[0u8; 224]).is_ok());
}

#[test]
fn unknown_discriminants_are_rejected() {
    let mut bytes = vec![0u8; 224];
    bytes[0] = 3;
    assert_eq!(CrashTracerEvent::from_bytes(&bytes), Err(FrameError::UnknownTag { tag: 3 }));
    bytes[0] = 1;
    bytes[3] = 1;
    assert_eq!(
        CrashTracerEvent::from_bytes(&bytes),
        Err(FrameError::UnknownTag { tag: 0x0100_0001 })
    );
}

#[test]
fn bytes_past_the_frame_are_ignored() {
    let e = SchedExecEvent { pid: 5, boottime: 6 };
    let mut bytes = CrashTracerEvent::exec(&e).to_bytes();
    bytes.extend_from_slice(&[0xaa; 40]);
    assert_eq!(CrashTracerEvent::from_bytes(&bytes).unwrap().as_exec(), Some(e));
}

#[test]
fn command_name_drops_the_padding() {
    let e = sample_signal();
    assert_eq!(e.command(), "nullderef");
    let mut full = e;
    full.cmd = *b"sixteen_byte_cmd";
    assert_eq!(full.command(), "sixteen_byte_cmd");
    let mut empty = e;
    empty.cmd = [0u8; 16];
    assert_eq!(empty.command(), "");
    let mut inner = e;
    inner.cmd = *b"a\0b\0\0\0\0\0\0\0\0\0\0\0\0\0";
    assert_eq!(inner.command(), "a\0b");
}

#[test]
fn command_name_that_is_no_text_is_unknown() {
    let mut e = sample_signal();
    e.cmd = [0xff, 0xfe, 0, 0, 0, 0, 0, 0, 0, 0, 0, 0, 0, 0, 0, 0];
    assert_eq!(e.command(), "<unknown>");
    e.cmd = [0xc3, 0xa9, 0, 0, 0, 0, 0, 0, 0, 0, 0, 0, 0, 0, 0, 0];
    assert_eq!(e.command(), "\u{e9}");
}

#[test]
fn exit_code_gives_the_killing_signal() {
    assert_eq!(SchedExitEvent { pid: 1, exit_code: 139, boottime: 0 }.term_signal(), 11);
    assert_eq!(SchedExitEvent { pid: 1, exit_code: 11, boottime: 0 }.term_signal(), 11);
    assert_eq!(SchedExitEvent { pid: 1, exit_code: 0x100, boottime: 0 }.term_signal(), 0);
    assert_eq!(SchedExitEvent { pid: 1, exit_code: 0, boottime: 0 }.term_signal(), 0);
    assert_eq!(SchedExitEvent { pid: 1, exit_code: u32::MAX, boottime: 0 }.term_signal(), 127);
}

#[test]
fn captured_bytes_stop_at_the_declared_length() {
    let mut data = [0u8; STACK_DUMP_SIZE];
    for (i, b) in data.iter_mut().enumerate() {
        *b = (i % 251) as u8;
    }
    let dump = StackDump { rsp: 0x1000, len: 2048, data };
    assert_eq!(dump.captured_bytes(), &data[..2048]);
    let none = StackDump { rsp: 0x1000, len: 0, data };
    assert!(none.captured_bytes().is_empty());
    let whole = StackDump { rsp: 0x1000, len: 16384, data };
    assert_eq!(whole.captured_bytes().len(), 16384);
    let beyond = StackDump { rsp: 0x1000, len: 70000, data };
    assert_eq!(beyond.captured_bytes().len(), 16384);
}

#[test]
fn side_map_keys_compare_by_all_three_parts() {
    let a = StackDumpKey { pid: 1, tid: 2, boottime: 3 };
    assert_eq!(a, StackDumpKey { pid: 1, tid: 2, boottime: 3 });
    assert_ne!(a, StackDumpKey { pid: 1, tid: 2, boottime: 4 });
    assert_ne!(a, StackDumpKey { pid: 1, tid: 3, boottime: 3 });
    assert_ne!(a, StackDumpKey { pid: 2, tid: 2, boottime: 3 });
}
