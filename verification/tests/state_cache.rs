use crash_tracer::state::cmdline::{
    decode_arguments, join_cmdline, join_with_spaces, split_nul_fields,
};
use crash_tracer::state::map::{MemoryMap, ProcSnapshot, RuntimeKind, MAX_TRACKED_PROCESSES};
use crash_tracer::state::runtime::{is_white_space, line_runtime};

fn snapshot(lines: &[&str]) -> ProcSnapshot {
    ProcSnapshot {
        maps: Some(lines.iter().map(|l| l.to_string()).collect()),
        cwd: Some(String::from("/srv/app")),
        cmdline: Some(b"./app\0--flag\0".to_vec()),
    }
}

fn lines(lines: &[&str]) -> Vec<String> {
    lines.iter().map(|l| l.to_string()).collect()
}

#[test]
fn runtime_ids_are_stable() {
    assert_eq!(RuntimeKind::Native.to_id(), 0);
    assert_eq!(RuntimeKind::Jvm.to_id(), 1);
    assert_eq!(RuntimeKind::V8.to_id(), 2);
    assert_eq!(RuntimeKind::Il2Cpp.to_id(), 3);
    assert_eq!(RuntimeKind::Mono.to_id(), 4);
    assert_eq!(RuntimeKind::CoreClr.to_id(), 5);
    assert_eq!(RuntimeKind::Python.to_id(), 6);
}

#[test]
fn runtime_names_are_their_variant_names() {
    assert_eq!(RuntimeKind::Native.to_string(), "Native");
    assert_eq!(RuntimeKind::Jvm.to_string(), "Jvm");
    assert_eq!(RuntimeKind::V8.to_string(), "V8");
    assert_eq!(RuntimeKind::Il2Cpp.to_string(), "Il2Cpp");
    assert_eq!(RuntimeKind::Mono.to_string(), "Mono");
    assert_eq!(RuntimeKind::CoreClr.to_string(), "CoreClr");
    assert_eq!(RuntimeKind::Python.as_str(), "Python");
}

#[test]
fn white_space_is_the_unicode_property() {
    for c in ['\u{9}', '\n', '\u{b}', '\u{c}', '\r', ' ', '\u{85}', '\u{a0}', '\u{1680}', '\u{2000}', '\u{200a}', '\u{2028}', '\u{2029}', '\u{202f}', '\u{205f}', '\u{3000}'] {
        assert!(is_white_space(c), "{:?}", c);
    }
    for c in ['a', '0', '\u{8}', '\u{e}', '\u{200b}', '\u{feff}', '\u{1f}', '\u{2001}'] {
        assert_eq!(is_white_space(c), c.is_whitespace(), "{:?}", c);
    }
    for u in 0u32..0x3100 {
        if let Some(c) = char::from_u32(u) {
            assert_eq!(is_white_space(c), c.is_whitespace(), "{:#x}", u);
        }
    }
}

#[test]
fn each_runtime_is_detected_by_its_library() {
    let cases = [
        ("7f00-7f01 r-xp 0 08:01 9 /opt/jdk/lib/server/libjvm.so", Some(RuntimeKind::Jvm)),
        ("7f00-7f01 r-xp 0 08:01 9 /game/GameAssembly/libil2cpp.so", Some(RuntimeKind::Il2Cpp)),
        ("7f00-7f01 r-xp 0 08:01 9 /usr/lib/libnode.so.108", Some(RuntimeKind::V8)),
        ("7f00-7f01 r-xp 0 08:01 9 /usr/lib/libv8.so", Some(RuntimeKind::V8)),
        ("7f00-7f01 r-xp 0 08:01 9 /usr/share/dotnet/libcoreclr.so", Some(RuntimeKind::CoreClr)),
        ("7f00-7f01 r-xp 0 08:01 9 /usr/lib/libmonosgen-2.0.so.1", Some(RuntimeKind::Mono)),
        ("7f00-7f01 r-xp 0 08:01 9 /usr/lib/libpython3.11.so.1.0", Some(RuntimeKind::Python)),
        ("7f00-7f01 r-xp 0 08:01 9 /usr/lib/libc.so.6", None),
        ("7f00-7f01 rw-p 0 00:00 0", None),
        ("", None),
        ("   \t ", None),
    ];
    for (line, expected) in cases {
        assert_eq!(line_runtime(line), expected, "{:?}", line);
    }
}

#[test]
fn only_the_last_word_of_a_line_counts() {
    assert_eq!(line_runtime("libjvm.so r-xp 0 08:01 9 /usr/lib/libc.so.6"), None);
    assert_eq!(line_runtime("x /opt/libjvm.so   "), Some(RuntimeKind::Jvm));
    assert_eq!(line_runtime("x /opt/libjvm.so\u{a0}/usr/lib/libc.so"), None);
    assert_eq!(line_runtime("/opt/libjvm.so"), Some(RuntimeKind::Jvm));
    assert_eq!(line_runtime("x /opt/libjvm.s"), None);
}

#[test]
fn the_order_of_the_table_decides_within_a_path() {
    assert_eq!(line_runtime("x /a/libpython3/libjvm.so"), Some(RuntimeKind::Jvm));
    assert_eq!(line_runtime("x /a/libmonosgen/libcoreclr.so"), Some(RuntimeKind::CoreClr));
    assert_eq!(line_runtime("x /a/libv8.so/libil2cpp.so"), Some(RuntimeKind::Il2Cpp));
}

#[test]
fn the_first_line_with_a_runtime_wins() {
    let cache = MemoryMap::new();
    let maps = lines(&[
        "00400000-00401000 r-xp 0 08:01 1 /usr/bin/jython",
        "7f00-7f01 r-xp 0 08:01 9 /usr/lib/libpython3.11.so.1.0",
        "7f02-7f03 r-xp 0 08:01 9 /opt/jdk/lib/server/libjvm.so",
    ]);
    assert_eq!(cache.detect_runtime(&maps), RuntimeKind::Python);
    assert_eq!(cache.detect_runtime(&lines(&[])), RuntimeKind::Native);
    assert_eq!(
        cache.detect_runtime(&lines(&["00400000-00401000 r-xp 0 08:01 1 /bin/nullderef"])),
        RuntimeKind::Native
    );
}

#[test]
fn jvm_process_is_detected_from_its_maps() {
    let cache = MemoryMap::new();
    let maps = lines(&[
        "00400000-00401000 r-xp 00000000 08:01 1 /opt/jdk/bin/java",
        "7f0000000000-7f0000100000 r-xp 00000000 08:01 2 /opt/jdk/lib/server/libjvm.so",
    ]);
    assert_eq!(cache.detect_runtime(&maps), RuntimeKind::Jvm);
}

#[test]
fn command_line_arguments_are_joined_by_spaces() {
    assert_eq!(join_cmdline(b"./app\0--flag\0value\0"), "./app --flag value");
    assert_eq!(join_cmdline(b"./app"), "./app");
    assert_eq!(join_cmdline(b""), "");
    assert_eq!(join_cmdline(b"\0\0"), "");
    assert_eq!(join_cmdline(b"a\0\0b\0"), "a b");
    assert_eq!(join_cmdline(b"\0a\0"), "a");
    assert_eq!(join_cmdline(b"a b\0c"), "a b c");
}

#[test]
fn command_line_that_is_no_text_is_decoded_lossily() {
    assert_eq!(join_cmdline(b"a\xffb\0c\0"), "a\u{fffd}b c");
    assert_eq!(join_cmdline("caf\u{e9}\0".as_bytes()), "caf\u{e9}");
}

#[test]
fn new_cache_is_empty() {
    let cache = MemoryMap::new();
    assert_eq!(cache.len(), 0);
    assert!(!cache.is_full());
    assert!(cache.get(1, 1).is_none());
    assert!(cache.tracked_pids().is_empty());
}

#[test]
fn insert_remembers_the_process() {
    let mut cache = MemoryMap::new();
    let inserted = cache.insert(
        10,
        500,
        snapshot(&["7f00-7f01 r-xp 0 08:01 9 /usr/lib/libpython3.11.so.1.0"]),
        &vec![],
    );
    assert!(inserted);
    assert_eq!(cache.len(), 1);
    let info = cache.get(10, 500).unwrap();
    assert_eq!(info.pid, 10);
    assert_eq!(info.boottime, 500);
    assert_eq!(info.maps, lines(&["7f00-7f01 r-xp 0 08:01 9 /usr/lib/libpython3.11.so.1.0"]));
    assert_eq!(info.runtime, RuntimeKind::Python);
    assert_eq!(info.cwd.as_deref(), Some("/srv/app"));
    assert_eq!(info.cmdline.as_deref(), Some("./app --flag"));
    assert!(cache.get(10, 501).is_none());
    assert!(cache.get(11, 500).is_none());
}

#[test]
fn insert_without_a_memory_map_is_skipped() {
    let mut cache = MemoryMap::new();
    let inserted = cache.insert(
        10,
        500,
        ProcSnapshot { maps: None, cwd: Some(String::from("/")), cmdline: Some(b"x\0".to_vec()) },
        &vec![],
    );
    assert!(!inserted);
    assert_eq!(cache.len(), 0);
    assert!(cache.get(10, 500).is_none());
}

#[test]
fn working_directory_and_command_line_are_optional() {
    let mut cache = MemoryMap::new();
    assert!(cache.insert(1, 2, ProcSnapshot { maps: Some(vec![]), cwd: None, cmdline: None }, &vec![]));
    let info = cache.get(1, 2).unwrap();
    assert_eq!(info.cwd, None);
    assert_eq!(info.cmdline, None);
    assert_eq!(info.runtime, RuntimeKind::Native);
    assert!(info.maps.is_empty());
}

#[test]
fn a_second_exec_replaces_the_entry() {
    let mut cache = MemoryMap::new();
    cache.insert(1, 2, snapshot(&["a /bin/sh"]), &vec![]);
    cache.insert(3, 4, snapshot(&["b /bin/ls"]), &vec![]);
    cache.insert(1, 2, snapshot(&["c /opt/jdk/lib/server/libjvm.so"]), &vec![]);
    assert_eq!(cache.len(), 2);
    assert_eq!(cache.get(1, 2).unwrap().runtime, RuntimeKind::Jvm);
    assert_eq!(cache.tracked_pids(), vec![3, 1]);
}

#[test]
fn a_reused_pid_is_another_process() {
    let mut cache = MemoryMap::new();
    cache.insert(77, 1000, snapshot(&["a /bin/first"]), &vec![]);
    cache.insert(77, 2000, snapshot(&["b /bin/second"]), &vec![]);
    assert_eq!(cache.len(), 2);
    assert_eq!(cache.get(77, 1000).unwrap().maps, lines(&["a /bin/first"]));
    assert_eq!(cache.get(77, 2000).unwrap().maps, lines(&["b /bin/second"]));
    cache.remove(77, 1000);
    assert!(cache.get(77, 1000).is_none());
    assert_eq!(cache.get(77, 2000).unwrap().maps, lines(&["b /bin/second"]));
}

#[test]
fn remove_forgets_only_the_process_named() {
    let mut cache = MemoryMap::new();
    cache.insert(1, 2, snapshot(&[]), &vec![]);
    cache.insert(3, 4, snapshot(&[]), &vec![]);
    cache.remove(9, 9);
    assert_eq!(cache.len(), 2);
    cache.remove(1, 2);
    assert_eq!(cache.len(), 1);
    assert!(cache.get(1, 2).is_none());
    assert!(cache.get(3, 4).is_some());
    cache.remove(1, 2);
    assert_eq!(cache.len(), 1);
}

#[test]
fn prune_forgets_the_vanished_pids() {
    let mut cache = MemoryMap::new();
    for pid in 1..=6u32 {
        cache.insert(pid, 100 + pid as u64, snapshot(&[]), &vec![]);
    }
    cache.insert(2, 999, snapshot(&[]), &vec![]);
    cache.prune(&vec![2, 5, 40]);
    assert_eq!(cache.tracked_pids(), vec![1, 3, 4, 6]);
    assert!(cache.get(2, 102).is_none());
    assert!(cache.get(2, 999).is_none());
    cache.prune(&vec![]);
    assert_eq!(cache.len(), 4);
}

#[test]
fn below_the_cap_nothing_is_pruned() {
    let mut cache = MemoryMap::new();
    cache.insert(1, 1, snapshot(&[]), &vec![]);
    cache.insert(2, 2, snapshot(&[]), &vec![1]);
    assert_eq!(cache.tracked_pids(), vec![1, 2]);
}

#[test]
fn a_full_cache_prunes_before_it_inserts() {
    let mut cache = MemoryMap::new();
    let empty = vec![];
    for pid in 0..MAX_TRACKED_PROCESSES as u32 {
        let snap = ProcSnapshot { maps: Some(vec![]), cwd: None, cmdline: None };
        assert!(cache.insert(pid, 1, snap, &empty));
    }
    assert_eq!(cache.len(), 4096);
    assert!(cache.is_full());
    let vanished: Vec<u32> = (0..4096u32).filter(|p| p % 2 == 1).collect();
    let snap = ProcSnapshot { maps: Some(vec![]), cwd: None, cmdline: None };
    assert!(cache.insert(5000, 1, snap, &vanished));
    assert_eq!(cache.len(), 2049);
    assert!(cache.get(0, 1).is_some());
    assert!(cache.get(1, 1).is_none());
    assert!(cache.get(4095, 1).is_none());
    assert!(cache.get(4094, 1).is_some());
    assert!(cache.get(5000, 1).is_some());
    assert!(!cache.is_full());
}

#[test]
fn a_full_cache_prunes_even_when_the_insert_is_skipped() {
    let mut cache = MemoryMap::new();
    let empty = vec![];
    for pid in 0..MAX_TRACKED_PROCESSES as u32 {
        let snap = ProcSnapshot { maps: Some(vec![]), cwd: None, cmdline: None };
        cache.insert(pid, 1, snap, &empty);
    }
    let snap = ProcSnapshot { maps: None, cwd: None, cmdline: None };
    assert!(!cache.insert(9000, 1, snap, &vec![0, 1, 2]));
    assert_eq!(cache.len(), 4093);
}

#[test]
fn a_full_cache_without_vanished_processes_still_grows() {
    let mut cache = MemoryMap::new();
    let empty = vec![];
    for pid in 0..MAX_TRACKED_PROCESSES as u32 + 3 {
        let snap = ProcSnapshot { maps: Some(vec![]), cwd: None, cmdline: None };
        assert!(cache.insert(pid, 1, snap, &empty));
    }
    assert_eq!(cache.len(), 4099);
}

#[test]
fn nul_bytes_separate_the_fields() {
    assert_eq!(split_nul_fields(b"a\0bc\0"), vec![b"a".to_vec(), b"bc".to_vec()]);
    assert_eq!(split_nul_fields(b"\0\0a\0\0\0b"), vec![b"a".to_vec(), b"b".to_vec()]);
    assert!(split_nul_fields(b"").is_empty());
    assert!(split_nul_fields(b"\0").is_empty());
    assert_eq!(split_nul_fields(b"abc"), vec![b"abc".to_vec()]);
}

#[test]
fn parts_are_joined_by_single_spaces() {
    assert_eq!(join_with_spaces(&vec![]), "");
    assert_eq!(join_with_spaces(&vec![String::from("a")]), "a");
    assert_eq!(join_with_spaces(&vec![String::from("a"), String::from(""), String::from("b c")]), "a  b c");
}

#[test]
fn arguments_are_decoded_one_by_one() {
    assert_eq!(
        decode_arguments(&vec![b"ok".to_vec(), vec![0xff], "\u{e9}".as_bytes().to_vec()]),
        vec![String::from("ok"), String::from("\u{fffd}"), String::from("\u{e9}")]
    );
}
