use crash_tracer::common::{SignalDeliverEvent, StackDump, STACK_DUMP_SIZE};
use crash_tracer::db::{ArtifactData, CrashReportData, Registers};
use crash_tracer::report::{
    console_summary_at, print_to_console, report_file_name, save_from_db, save_report,
    si_code_name, signal_name, write_report, write_report_at, write_report_from_db,
    write_report_from_db_at,
};
use crash_tracer::state::map::{ProcessInfo, RuntimeKind};

fn sample_registers() -> Registers {
    Registers {
        rip: 0x401136,
        rsp: 0x7ffd_0000_1000,
        rbp: 0x7ffd_0000_1010,
        rax: 0,
        rbx: 1,
        rcx: 2,
        rdx: 3,
        rsi: 4,
        rdi: 5,
        r8: 6,
        r9: 7,
        r10: 8,
        r11: 9,
        r12: 10,
        r13: 11,
        r14: 12,
        r15: 0xffff_ffff_ffff_ffff,
        rflags: 0x10246,
    }
}

fn sample_data() -> CrashReportData {
    CrashReportData {
        cmd: String::from("nullderef"),
        pid: 4242,
        tid: 4243,
        signal: 11,
        si_code: 1,
        fault_addr: 0,
        exit_code: Some(139),
        runtime: String::from("Native"),
        registers: sample_registers(),
        stack_frames: vec![0x401136, 0x7f00_dead_beef, 0, 0x1234],
        stack_dump: Some((0x7ffd_0000_1000, (0u8..20).map(|b| b + 0x3c).collect())),
        memory_maps: vec![String::from("00400000-00401000 r--p 00000000 08:01 1 /bin/nullderef")],
        artifacts: vec![
            ArtifactData {
                filename: String::from("hs_err.log"),
                full_path: String::from("/tmp/hs_err.log"),
                content: Some(b"line one\r\nline two\n\nlast".to_vec()),
            },
            ArtifactData {
                filename: String::from("core.bin"),
                full_path: String::from("/tmp/core.bin"),
                content: Some(vec![0xff, 0xfe, 0x00]),
            },
            ArtifactData {
                filename: String::from("gone"),
                full_path: String::from("/tmp/gone"),
                content: None,
            },
        ],
    }
}

#[test]
fn signal_names_follow_the_table() {
    assert_eq!(signal_name(4), "SIGILL");
    assert_eq!(signal_name(6), "SIGABRT");
    assert_eq!(signal_name(7), "SIGBUS");
    assert_eq!(signal_name(8), "SIGFPE");
    assert_eq!(signal_name(11), "SIGSEGV");
    assert_eq!(signal_name(9), "UNKNOWN");
    assert_eq!(signal_name(-1), "UNKNOWN");
}

#[test]
fn si_code_names_follow_the_table() {
    assert_eq!(si_code_name(11, 1), "SEGV_MAPERR");
    assert_eq!(si_code_name(11, 2), "SEGV_ACCERR");
    assert_eq!(si_code_name(7, 1), "BUS_ADRALN");
    assert_eq!(si_code_name(7, 2), "BUS_ADRERR");
    assert_eq!(si_code_name(8, 1), "FPE_INTDIV");
    assert_eq!(si_code_name(8, 2), "FPE_INTOVF");
    assert_eq!(si_code_name(8, 3), "FPE_FLTDIV");
    assert_eq!(si_code_name(4, 1), "ILL_ILLOPC");
    assert_eq!(si_code_name(4, 2), "UNKNOWN");
    assert_eq!(si_code_name(11, 3), "UNKNOWN");
}

#[test]
fn stored_report_has_every_section_in_order() {
    let mut out = Vec::new();
    write_report_from_db_at(&mut out, &sample_data(), "2024-05-01T12:00:00+00:00");
    let text = String::from_utf8(out).unwrap();
    let expected = "\
Crash Report
============
Generated: 2024-05-01T12:00:00+00:00

Process: nullderef (PID: 4242, TID: 4243)
Signal:  SIGSEGV (11)
Code:    SEGV_MAPERR (1)
Exit:    139

Detected Runtime: Native

Registers
---------
  RIP: 0x0000000000401136  RFLAGS: 0x0000000000010246
  RSP: 0x00007ffd00001000  RBP:    0x00007ffd00001010
  RAX: 0x0000000000000000  RBX:    0x0000000000000001
  RCX: 0x0000000000000002  RDX:    0x0000000000000003
  RSI: 0x0000000000000004  RDI:    0x0000000000000005
  R8:  0x0000000000000006  R9:     0x0000000000000007
  R10: 0x0000000000000008  R11:    0x0000000000000009
  R12: 0x000000000000000a  R13:    0x000000000000000b
  R14: 0x000000000000000c  R15:    0xffffffffffffffff

User Stack:
---------
  # 0: 0x0000000000401136
  # 1: 0x00007f00deadbeef

Raw Stack (20 bytes from 0x00007ffd00001000)
---------
  0x00007ffd00001000: 3c3d 3e3f 4041 4243 4445 4647 4849 4a4b  |<=>?@ABCDEFGHIJK|
  0x00007ffd00001010: 4c4d 4e4f                                |LMNO|

Memory Maps
-----------
00400000-00401000 r--p 00000000 08:01 1 /bin/nullderef

Runtime Artifacts
-----------------
  File: hs_err.log (/tmp/hs_err.log)

    line one
    line two
    
    last
  File: core.bin (/tmp/core.bin)
  (binary content, 3 bytes)
  File: gone (/tmp/gone)
  (content not available)
";
    assert_eq!(text, expected);
}

#[test]
fn report_file_name_joins_command_pid_and_stamp() {
    let name = report_file_name(b"nullderef", 4242, "20240501_120000");
    assert_eq!(String::from_utf8(name).unwrap(), "crash_nullderef_4242_20240501_120000.txt");
}

#[test]
fn zeroed_event_has_no_stack_handles() {
    let e = SignalDeliverEvent::zeroed();
    assert_eq!(e.pid, 0);
    assert_eq!(e.cmd, [0u8; 16]);
    assert_eq!(e.kernel_stack_id, -1);
    assert_eq!(e.user_stack_id, -1);
}

fn live_event() -> SignalDeliverEvent {
    let mut e = SignalDeliverEvent::zeroed();
    e.pid = 31;
    e.tid = 32;
    e.cmd[..4].copy_from_slice(b"java");
    e.boottime = 5;
    e.signal = 7;
    e.si_code = 2;
    e.fault_addr = 0xdead_beef;
    e.rip = 0x1111;
    e.rsp = 0xffff_ffff_ffff_fff8;
    e.rflags = 0x2222;
    e.user_stack_id = 3;
    e
}

fn live_info() -> ProcessInfo {
    ProcessInfo {
        pid: 31,
        boottime: 5,
        maps: vec![String::from("7f00-7f01 r-xp 0 08:01 2 /opt/jdk/lib/server/libjvm.so")],
        runtime: RuntimeKind::Jvm,
        cwd: None,
        cmdline: None,
    }
}

fn text_of(bytes: Vec<u8>) -> String {
    String::from_utf8(bytes).unwrap()
}

#[test]
fn live_report_has_every_section_in_order() {
    let mut data = [0u8; STACK_DUMP_SIZE];
    data[..18].copy_from_slice(b"ABCDEFGHIJKLMNOP\x00\x7f");
    let dump = StackDump { rsp: 0xffff_ffff_ffff_fff8, len: 2048, data };
    let frames = vec![0xaaaau64, 0];
    let info = live_info();
    let mut out = Vec::new();
    write_report_at(&mut out, &live_event(), Some(&frames), Some(&dump), Some(&info), "NOW");
    let text = text_of(out);
    let head = "\
Crash Report
============
Generated: NOW

Process: java (PID: 31, TID: 32)
Signal:  SIGBUS (7)
Code:    BUS_ADRERR (2)
Fault:   0x00000000deadbeef

Detected Runtime: Jvm

Registers
---------
  RIP: 0x0000000000001111  RFLAGS: 0x0000000000002222
  RSP: 0xfffffffffffffff8  RBP:    0x0000000000000000
  RAX: 0x0000000000000000  RBX:    0x0000000000000000
  RCX: 0x0000000000000000  RDX:    0x0000000000000000
  RSI: 0x0000000000000000  RDI:    0x0000000000000000
  R8:  0x0000000000000000  R9:     0x0000000000000000
  R10: 0x0000000000000000  R11:    0x0000000000000000
  R12: 0x0000000000000000  R13:    0x0000000000000000
  R14: 0x0000000000000000  R15:    0x0000000000000000

User Stack:
---------
  # 0: 0x000000000000aaaa

Raw Stack (2048 bytes from 0xfffffffffffffff8)
---------
  0xfffffffffffffff8: 4142 4344 4546 4748 494a 4b4c 4d4e 4f50  |ABCDEFGHIJKLMNOP|
  0x0000000000000008: 007f 0000 0000 0000 0000 0000 0000 0000  |................|
";
    assert!(text.starts_with(head), "{}", text);
    let tail = "\
  0x00000000000007e8: 0000 0000 0000 0000 0000 0000 0000 0000  |................|

Memory Maps
-----------
7f00-7f01 r-xp 0 08:01 2 /opt/jdk/lib/server/libjvm.so
";
    assert!(text.ends_with(tail), "{}", text);
    assert_eq!(text.lines().filter(|l| l.starts_with("  0x") && l.ends_with('|')).count(), 128);
}

#[test]
fn live_report_without_process_stack_or_dump_is_short() {
    let mut e = live_event();
    e.fault_addr = 0;
    e.signal = 1;
    e.si_code = -6;
    let mut out = b"prefix|".to_vec();
    write_report_at(&mut out, &e, None, None, None, "T");
    let expected = "\
prefix|Crash Report
============
Generated: T

Process: java (PID: 31, TID: 32)
Signal:  UNKNOWN (1)
Code:    UNKNOWN (-6)

Registers
---------
  RIP: 0x0000000000001111  RFLAGS: 0x0000000000002222
  RSP: 0xfffffffffffffff8  RBP:    0x0000000000000000
  RAX: 0x0000000000000000  RBX:    0x0000000000000000
  RCX: 0x0000000000000000  RDX:    0x0000000000000000
  RSI: 0x0000000000000000  RDI:    0x0000000000000000
  R8:  0x0000000000000000  R9:     0x0000000000000000
  R10: 0x0000000000000000  R11:    0x0000000000000000
  R12: 0x0000000000000000  R13:    0x0000000000000000
  R14: 0x0000000000000000  R15:    0x0000000000000000
";
    assert_eq!(text_of(out), expected);
}

#[test]
fn an_empty_stack_trace_still_has_its_heading_in_a_live_report() {
    let mut out = Vec::new();
    write_report_at(&mut out, &live_event(), Some(&vec![]), None, None, "T");
    assert!(text_of(out).ends_with("\nUser Stack:\n---------\n"));
    let mut out = Vec::new();
    write_report_at(&mut out, &live_event(), Some(&vec![0, 5]), None, None, "T");
    assert!(text_of(out).ends_with("\nUser Stack:\n---------\n"));
}

#[test]
fn frame_numbers_are_right_aligned_to_two_columns() {
    let frames: Vec<u64> = (1..=12).collect();
    let mut out = Vec::new();
    write_report_at(&mut out, &live_event(), Some(&frames), None, None, "T");
    let text = text_of(out);
    assert!(text.contains("\n  # 9: 0x000000000000000a\n  #10: 0x000000000000000b\n  #11: 0x000000000000000c\n"));
}

#[test]
fn a_dump_of_no_bytes_has_only_its_heading() {
    let dump = StackDump { rsp: 0x10, len: 0, data: [9u8; STACK_DUMP_SIZE] };
    let mut out = Vec::new();
    write_report_at(&mut out, &live_event(), None, Some(&dump), None, "T");
    assert!(text_of(out).ends_with("\nRaw Stack (0 bytes from 0x0000000000000010)\n---------\n"));
}

#[test]
fn console_summary_omits_raw_stack_and_memory_map() {
    let frames = vec![0xaaaau64];
    let info = live_info();
    let text = text_of(console_summary_at(&live_event(), Some(&frames), Some(&info), "T"));
    let mut full = Vec::new();
    write_report_at(&mut full, &live_event(), Some(&frames), None, Some(&info), "T");
    let full = text_of(full);
    assert!(full.starts_with(&text));
    assert_eq!(&full[text.len()..], "\nMemory Maps\n-----------\n7f00-7f01 r-xp 0 08:01 2 /opt/jdk/lib/server/libjvm.so\n");
    assert!(text.contains("Detected Runtime: Jvm\n"));
    assert!(text.ends_with("  # 0: 0x000000000000aaaa\n"));
}

#[test]
fn stored_report_without_optional_parts() {
    let mut data = sample_data();
    data.exit_code = None;
    data.fault_addr = 0x10;
    data.stack_frames = vec![];
    data.stack_dump = None;
    data.memory_maps = vec![];
    data.artifacts = vec![];
    let mut out = Vec::new();
    write_report_from_db_at(&mut out, &data, "T");
    let text = text_of(out);
    assert!(text.contains("Code:    SEGV_MAPERR (1)\nFault:   0x0000000000000010\n\nDetected Runtime: Native\n"));
    assert!(text.ends_with("  R14: 0x000000000000000c  R15:    0xffffffffffffffff\n"));
    assert!(!text.contains("Exit:"));
}

#[test]
fn a_long_text_artifact_is_cut_at_the_preview_length() {
    let mut data = sample_data();
    let mut content = Vec::new();
    while content.len() < 5000 {
        content.extend_from_slice(b"0123456789abcdef0123456789abcde\n");
    }
    data.artifacts = vec![ArtifactData {
        filename: String::from("big.log"),
        full_path: String::from("/tmp/big.log"),
        content: Some(content.clone()),
    }];
    let mut out = Vec::new();
    write_report_from_db_at(&mut out, &data, "T");
    let text = text_of(out);
    let section = &text[text.find("Runtime Artifacts").unwrap()..];
    let shown: Vec<&str> = section.lines().filter(|l| l.starts_with("    0123")).collect();
    assert_eq!(shown.len(), 128);
    assert!(shown.iter().all(|l| *l == "    0123456789abcdef0123456789abcde"));
    assert!(section.ends_with(&format!("    ... ({} bytes total, truncated)\n", content.len())));
}

#[test]
fn a_text_artifact_of_exactly_the_preview_length_is_whole() {
    let mut data = sample_data();
    data.artifacts = vec![ArtifactData {
        filename: String::from("f"),
        full_path: String::from("/f"),
        content: Some(vec![b'x'; 4096]),
    }];
    let mut out = Vec::new();
    write_report_from_db_at(&mut out, &data, "T");
    let text = text_of(out);
    assert!(text.ends_with(&format!("  File: f (/f)\n\n    {}\n", "x".repeat(4096))));
}

#[test]
fn a_cut_never_splits_a_character() {
    let mut data = sample_data();
    let mut content = vec![b'x'; 4094];
    content.extend_from_slice("\u{20ac}\u{20ac}".as_bytes());
    data.artifacts = vec![ArtifactData {
        filename: String::from("f"),
        full_path: String::from("/f"),
        content: Some(content),
    }];
    let mut out = Vec::new();
    write_report_from_db_at(&mut out, &data, "T");
    let text = String::from_utf8(out).unwrap();
    assert!(text.ends_with(&format!("    {}\n    ... (4100 bytes total, truncated)\n", "x".repeat(4094))));
}

#[test]
fn an_empty_text_artifact_has_no_lines() {
    let mut data = sample_data();
    data.artifacts = vec![ArtifactData {
        filename: String::from("f"),
        full_path: String::from("/f"),
        content: Some(vec![]),
    }];
    let mut out = Vec::new();
    write_report_from_db_at(&mut out, &data, "T");
    assert!(text_of(out).ends_with("  File: f (/f)\n\n"));
}

#[test]
fn rendering_twice_differs_only_in_the_generated_line() {
    let data = sample_data();
    let mut first = Vec::new();
    let mut second = Vec::new();
    write_report_from_db_at(&mut first, &data, "2024-05-01T12:00:00+00:00");
    write_report_from_db_at(&mut second, &data, "2031-01-01T00:00:00.5+00:00");
    let first = text_of(first);
    let second = text_of(second);
    let a: Vec<&str> = first.lines().collect();
    let b: Vec<&str> = second.lines().collect();
    assert_eq!(a.len(), b.len());
    for (i, (x, y)) in a.iter().zip(b.iter()).enumerate() {
        if i == 2 {
            assert_eq!(*x, "Generated: 2024-05-01T12:00:00+00:00");
            assert_eq!(*y, "Generated: 2031-01-01T00:00:00.5+00:00");
        } else {
            assert_eq!(x, y);
        }
    }
    let mut again = Vec::new();
    write_report_from_db_at(&mut again, &data, "2024-05-01T12:00:00+00:00");
    assert_eq!(text_of(again), first);
}

#[test]
fn reports_written_now_carry_the_time_of_writing() {
    let data = sample_data();
    let before = chrono::Utc::now();
    let mut out = Vec::new();
    write_report_from_db(&mut out, &data);
    let text = text_of(out);
    let after = chrono::Utc::now();
    let line = text.lines().nth(2).unwrap();
    let stamp = line.strip_prefix("Generated: ").unwrap();
    let at = chrono::DateTime::parse_from_rfc3339(stamp).unwrap();
    assert!(before <= at && at <= after);
    let mut fixed = Vec::new();
    write_report_from_db_at(&mut fixed, &data, stamp);
    assert_eq!(text_of(fixed), text);

    let mut live = Vec::new();
    write_report(&mut live, &live_event(), None, None, None);
    let live = text_of(live);
    let stamp = live.lines().nth(2).unwrap().strip_prefix("Generated: ").unwrap().to_string();
    assert!(chrono::DateTime::parse_from_rfc3339(&stamp).is_ok());
    let console = text_of(print_to_console(&live_event(), None, None));
    assert!(console.starts_with("Crash Report\n============\nGenerated: 2"));
}

#[test]
fn saved_reports_are_named_by_command_pid_and_time() {
    let data = sample_data();
    let saved = save_from_db(&data);
    let name = text_of(saved.file_name);
    let stamp = name.strip_prefix("crash_nullderef_4242_").unwrap().strip_suffix(".txt").unwrap();
    assert_eq!(stamp.len(), 15);
    assert!(chrono::NaiveDateTime::parse_from_str(stamp, "%Y%m%d_%H%M%S").is_ok());
    let contents = text_of(saved.contents);
    assert!(contents.contains("Code:    SEGV_MAPERR (1)\n"));
    let generated = contents.lines().nth(2).unwrap().strip_prefix("Generated: ").unwrap().to_string();
    let mut fixed = Vec::new();
    write_report_from_db_at(&mut fixed, &data, &generated);
    assert_eq!(text_of(fixed), contents);

    let live = save_report(&live_event(), None, None, None);
    let name = text_of(live.file_name);
    assert!(name.starts_with("crash_java_31_2"));
    assert!(name.ends_with(".txt"));
    assert!(text_of(live.contents).contains("Signal:  SIGBUS (7)\n"));
}
