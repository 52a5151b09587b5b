//! The process-state cache: for each live process, keyed by `(pid, boottime)`,
//! its memory map as read at exec time, the language runtime detected in it,
//! its working directory and its command line.

use crate::state::cmdline::{cmdline_text, join_cmdline};
use crate::state::runtime::{detected_runtime, line_runtime};
use vstd::prelude::*;
use vstd::string::*;

verus! {

/// The language runtime that hosts a process.
#[derive(Clone, Copy, Debug, PartialEq, Eq, Structural)]
pub enum RuntimeKind {
    Native,
    Jvm,
    V8,
    Il2Cpp,
    Mono,
    CoreClr,
    Python,
}

impl RuntimeKind {
    /// The number that stands for this runtime.
    pub open spec fn id(self) -> u32 {
        match self {
            RuntimeKind::Native => 0,
            RuntimeKind::Jvm => 1,
            RuntimeKind::V8 => 2,
            RuntimeKind::Il2Cpp => 3,
            RuntimeKind::Mono => 4,
            RuntimeKind::CoreClr => 5,
            RuntimeKind::Python => 6,
        }
    }

    /// The name of this runtime as it is stored and printed.
    pub open spec fn name(self) -> Seq<char> {
        match self {
            RuntimeKind::Native => "Native"@,
            RuntimeKind::Jvm => "Jvm"@,
            RuntimeKind::V8 => "V8"@,
            RuntimeKind::Il2Cpp => "Il2Cpp"@,
            RuntimeKind::Mono => "Mono"@,
            RuntimeKind::CoreClr => "CoreClr"@,
            RuntimeKind::Python => "Python"@,
        }
    }

    /// The number that stands for this runtime.
    pub fn to_id(&self) -> (id: u32)
        ensures
            id == self.id(),
    {
        match self {
            RuntimeKind::Native => 0,
            RuntimeKind::Jvm => 1,
            RuntimeKind::V8 => 2,
            RuntimeKind::Il2Cpp => 3,
            RuntimeKind::Mono => 4,
            RuntimeKind::CoreClr => 5,
            RuntimeKind::Python => 6,
        }
    }

    /// The name of this runtime as it is stored and printed.
    pub fn as_str(&self) -> (s: &'static str)
        ensures
            s@ == self.name(),
    {
        match self {
            RuntimeKind::Native => "Native",
            RuntimeKind::Jvm => "Jvm",
            RuntimeKind::V8 => "V8",
            RuntimeKind::Il2Cpp => "Il2Cpp",
            RuntimeKind::Mono => "Mono",
            RuntimeKind::CoreClr => "CoreClr",
            RuntimeKind::Python => "Python",
        }
    }

    /// The name of this runtime as an owned string.
    pub fn to_string(&self) -> (s: String)
        ensures
            s@ == self.name(),
    {
        String::from_str(self.as_str())
    }
}

/// What one process is remembered by.
#[derive(Clone, Debug, PartialEq, Eq)]
pub struct ProcessInfo {
    pub pid: u32,
    pub boottime: u64,
    /// The lines of the memory map as read at exec time, in order.
    pub maps: Vec<String>,
    pub runtime: RuntimeKind,
    pub cwd: Option<String>,
    pub cmdline: Option<String>,
}

/// What was read about one process at exec time. Each part is absent where
/// its read failed.
#[derive(Clone, Debug, PartialEq, Eq)]
pub struct ProcSnapshot {
    /// The lines of the memory map.
    pub maps: Option<Vec<String>>,
    /// The target of the working-directory link.
    pub cwd: Option<String>,
    /// The raw command line: arguments, each followed by a NUL byte.
    pub cmdline: Option<Vec<u8>>,
}

/// How many processes the cache holds before it prunes.
pub const MAX_TRACKED_PROCESSES: usize = 4096;

/// Whether some entry of `s` belongs to the process `(pid, boottime)`.
pub open spec fn has_key(s: Seq<ProcessInfo>, pid: u32, boottime: u64) -> bool {
    exists|i: int| 0 <= i < s.len() && s[i].pid == pid && s[i].boottime == boottime
}

/// The entry of `s` for the process `(pid, boottime)`: the oldest, if there
/// is one.
pub open spec fn lookup(s: Seq<ProcessInfo>, pid: u32, boottime: u64) -> Option<ProcessInfo>
    decreases s.len(),
{
    if s.len() == 0 {
        None
    } else if s[0].pid == pid && s[0].boottime == boottime {
        Some(s[0])
    } else {
        lookup(s.drop_first(), pid, boottime)
    }
}

/// The entry found for a process is the first entry of that process.
pub proof fn lemma_lookup_first(s: Seq<ProcessInfo>, pid: u32, boottime: u64, i: int)
    requires
        0 <= i < s.len(),
        s[i].pid == pid,
        s[i].boottime == boottime,
        forall|k: int| 0 <= k < i ==> !(s[k].pid == pid && s[k].boottime == boottime),
    ensures
        lookup(s, pid, boottime) == Some(s[i]),
    decreases i,
{
    if i > 0 {
        let t = s.drop_first();
        assert(!(s[0].pid == pid && s[0].boottime == boottime));
        assert forall|k: int| 0 <= k < i - 1 implies !(t[k].pid == pid && t[k].boottime
            == boottime) by {
            assert(t[k] == s[k + 1]);
        }
        assert(t[i - 1] == s[i]);
        lemma_lookup_first(t, pid, boottime, i - 1);
    }
}

/// A process without an entry is not found.
pub proof fn lemma_lookup_none(s: Seq<ProcessInfo>, pid: u32, boottime: u64)
    requires
        !has_key(s, pid, boottime),
    ensures
        lookup(s, pid, boottime) is None,
    decreases s.len(),
{
    if s.len() > 0 {
        let t = s.drop_first();
        assert(!(s[0].pid == pid && s[0].boottime == boottime));
        if has_key(t, pid, boottime) {
            let a = choose|a: int| 0 <= a < t.len() && t[a].pid == pid && t[a].boottime == boottime;
            assert(s[a + 1].pid == pid);
        }
        lemma_lookup_none(t, pid, boottime);
    }
}

/// No two entries of `s` belong to the same process.
pub open spec fn distinct_keys(s: Seq<ProcessInfo>) -> bool {
    forall|i: int, j: int|
        0 <= i < j < s.len() ==> !(s[i].pid == s[j].pid && s[i].boottime == s[j].boottime)
}

/// The entries of `s` but that of the process `(pid, boottime)`, in order.
pub open spec fn without_key(s: Seq<ProcessInfo>, pid: u32, boottime: u64) -> Seq<ProcessInfo>
    decreases s.len(),
{
    if s.len() == 0 {
        s
    } else if s.last().pid == pid && s.last().boottime == boottime {
        without_key(s.drop_last(), pid, boottime)
    } else {
        without_key(s.drop_last(), pid, boottime).push(s.last())
    }
}

/// The entries of `s` whose pid is not among `vanished`, in order.
pub open spec fn without_pids(s: Seq<ProcessInfo>, vanished: Seq<u32>) -> Seq<ProcessInfo>
    decreases s.len(),
{
    if s.len() == 0 {
        s
    } else if vanished.contains(s.last().pid) {
        without_pids(s.drop_last(), vanished)
    } else {
        without_pids(s.drop_last(), vanished).push(s.last())
    }
}

/// What a cache that holds `s` keeps when an insertion finds it full: the
/// entries whose pid has not vanished. Below the cap nothing is pruned.
pub open spec fn pruned_if_full(s: Seq<ProcessInfo>, vanished: Seq<u32>) -> Seq<ProcessInfo> {
    if s.len() >= MAX_TRACKED_PROCESSES {
        without_pids(s, vanished)
    } else {
        s
    }
}

/// The pids of the entries of `s`, in order.
pub open spec fn pids_of(s: Seq<ProcessInfo>) -> Seq<u32> {
    Seq::new(s.len(), |i: int| s[i].pid)
}

/// Whether `info` is the entry made for `(pid, boottime)` from a snapshot
/// with the memory map `maps`.
pub open spec fn describes(
    info: ProcessInfo,
    pid: u32,
    boottime: u64,
    maps: Vec<String>,
    cwd: Option<String>,
    cmdline: Option<Vec<u8>>,
) -> bool {
    &&& info.pid == pid
    &&& info.boottime == boottime
    &&& info.maps == maps
    &&& info.runtime == detected_runtime(maps@)
    &&& info.cwd == cwd
    &&& match cmdline {
        None => info.cmdline is None,
        Some(raw) => info.cmdline is Some && info.cmdline->0@ == cmdline_text(raw@),
    }
}

/// What is left without the entry of a process: no entry of that process,
/// every other entry, and no entry twice where none was twice before.
proof fn lemma_without_key_keeps(s: Seq<ProcessInfo>, pid: u32, boottime: u64)
    ensures
        without_key(s, pid, boottime).len() <= s.len(),
        !has_key(without_key(s, pid, boottime), pid, boottime),
        distinct_keys(s) ==> distinct_keys(without_key(s, pid, boottime)),
        forall|p: u32, b: u64|
            !(p == pid && b == boottime) ==> (has_key(without_key(s, pid, boottime), p, b)
                <==> has_key(s, p, b)),
        forall|k: int|
            0 <= k < without_key(s, pid, boottime).len() ==> s.contains(
                #[trigger] without_key(s, pid, boottime)[k],
            ),
        !has_key(s, pid, boottime) ==> without_key(s, pid, boottime) == s,
    decreases s.len(),
{
    let w = without_key(s, pid, boottime);
    if s.len() == 0 {
    } else {
        let t = s.drop_last();
        let wt = without_key(t, pid, boottime);
        lemma_without_key_keeps(t, pid, boottime);
        let hit = s.last().pid == pid && s.last().boottime == boottime;
        assert forall|k: int| 0 <= k < w.len() implies s.contains(#[trigger] w[k]) by {
            if k < wt.len() {
                assert(t.contains(wt[k]));
                let i = choose|i: int| 0 <= i < t.len() && t[i] == wt[k];
                assert(s[i] == wt[k]);
            } else {
                assert(s[s.len() - 1] == w[k]);
            }
        }
        assert forall|p: u32, b: u64| !(p == pid && b == boottime) implies (has_key(w, p, b)
            <==> has_key(s, p, b)) by {
            if has_key(w, p, b) {
                let i = choose|i: int| 0 <= i < w.len() && w[i].pid == p && w[i].boottime == b;
                assert(s.contains(w[i]));
                let j = choose|j: int| 0 <= j < s.len() && s[j] == w[i];
                assert(s[j].pid == p && s[j].boottime == b);
            }
            if has_key(s, p, b) {
                let i = choose|i: int| 0 <= i < s.len() && s[i].pid == p && s[i].boottime == b;
                if i < t.len() {
                    assert(t[i].pid == p && t[i].boottime == b);
                    assert(has_key(t, p, b));
                    assert(has_key(wt, p, b));
                    let j = choose|j: int|
                        0 <= j < wt.len() && wt[j].pid == p && wt[j].boottime == b;
                    assert(w[j].pid == p && w[j].boottime == b);
                } else {
                    assert(w[w.len() - 1].pid == p && w[w.len() - 1].boottime == b);
                }
            }
        }
        if has_key(w, pid, boottime) {
            let i = choose|i: int| 0 <= i < w.len() && w[i].pid == pid && w[i].boottime == boottime;
            if i < wt.len() {
                assert(wt[i].pid == pid && wt[i].boottime == boottime);
            }
            assert(false);
        }
        if distinct_keys(s) {
            assert forall|i: int, j: int| 0 <= i < j < t.len() implies !(t[i].pid == t[j].pid
                && t[i].boottime == t[j].boottime) by {
                assert(s[i] == t[i] && s[j] == t[j]);
            }
            assert forall|i: int, j: int| 0 <= i < j < w.len() implies !(w[i].pid == w[j].pid
                && w[i].boottime == w[j].boottime) by {
                if j == wt.len() {
                    assert(t.contains(wt[i]));
                    let a = choose|a: int| 0 <= a < t.len() && t[a] == wt[i];
                    assert(s[a] == wt[i]);
                }
            }
        }
        if !has_key(s, pid, boottime) {
            assert(!hit) by {
                if hit {
                    assert(s[s.len() - 1].pid == pid);
                }
            }
            if has_key(t, pid, boottime) {
                let i = choose|i: int|
                    0 <= i < t.len() && t[i].pid == pid && t[i].boottime == boottime;
                assert(s[i].pid == pid && s[i].boottime == boottime);
            }
            assert(w =~= s);
        }
    }
}

/// What is left after pruning are entries that were there, none twice where
/// none was twice before.
proof fn lemma_without_pids_keeps(s: Seq<ProcessInfo>, vanished: Seq<u32>)
    ensures
        without_pids(s, vanished).len() <= s.len(),
        distinct_keys(s) ==> distinct_keys(without_pids(s, vanished)),
        forall|k: int|
            0 <= k < without_pids(s, vanished).len() ==> s.contains(
                #[trigger] without_pids(s, vanished)[k],
            ),
    decreases s.len(),
{
    let w = without_pids(s, vanished);
    if s.len() == 0 {
    } else {
        let t = s.drop_last();
        let wt = without_pids(t, vanished);
        lemma_without_pids_keeps(t, vanished);
        assert forall|k: int| 0 <= k < w.len() implies s.contains(#[trigger] w[k]) by {
            if k < wt.len() {
                assert(t.contains(wt[k]));
                let i = choose|i: int| 0 <= i < t.len() && t[i] == wt[k];
                assert(s[i] == wt[k]);
            } else {
                assert(s[s.len() - 1] == w[k]);
            }
        }
        if distinct_keys(s) {
            assert forall|i: int, j: int| 0 <= i < j < t.len() implies !(t[i].pid == t[j].pid
                && t[i].boottime == t[j].boottime) by {
                assert(s[i] == t[i] && s[j] == t[j]);
            }
            assert forall|i: int, j: int| 0 <= i < j < w.len() implies !(w[i].pid == w[j].pid
                && w[i].boottime == w[j].boottime) by {
                if j == wt.len() {
                    assert(t.contains(wt[i]));
                    let a = choose|a: int| 0 <= a < t.len() && t[a] == wt[i];
                    assert(s[a] == wt[i]);
                }
            }
        }
    }
}

/// The process-state cache.
pub struct MemoryMap {
    memory_map: Vec<ProcessInfo>,
}

impl View for MemoryMap {
    type V = Seq<ProcessInfo>;

    /// The entries, oldest insertion first.
    closed spec fn view(&self) -> Seq<ProcessInfo> {
        self.memory_map@
    }
}

impl MemoryMap {
    /// No two entries belong to the same process.
    #[verifier::type_invariant]
    spec fn unique(self) -> bool {
        distinct_keys(self.memory_map@)
    }

    /// An empty cache.
    pub fn new() -> (m: MemoryMap)
        ensures
            m@ == Seq::<ProcessInfo>::empty(),
    {
        MemoryMap { memory_map: Vec::new() }
    }

    /// How many processes are remembered.
    pub fn len(&self) -> (n: usize)
        ensures
            n == self@.len(),
    {
        self.memory_map.len()
    }

    /// Whether the next insertion prunes: the cache holds
    /// `MAX_TRACKED_PROCESSES` entries or more.
    pub fn is_full(&self) -> (r: bool)
        ensures
            r == (self@.len() >= MAX_TRACKED_PROCESSES),
    {
        self.memory_map.len() >= MAX_TRACKED_PROCESSES
    }

    /// The pid of every entry, in order: what a liveness probe has to look at.
    pub fn tracked_pids(&self) -> (pids: Vec<u32>)
        ensures
            pids@ == pids_of(self@),
    {
        let n: usize = self.memory_map.len();
        let mut pids: Vec<u32> = Vec::new();
        let mut i: usize = 0;
        while i < n
            invariant
                i <= n,
                n == self.memory_map@.len(),
                pids@ == pids_of(self.memory_map@.take(i as int)),
            decreases n - i,
        {
            pids.push(self.memory_map[i].pid);
            i = i + 1;
            assert(pids@ =~= pids_of(self.memory_map@.take(i as int)));
        }
        assert(self.memory_map@.take(n as int) =~= self.memory_map@);
        pids
    }

    /// Where the entry of the process `(pid, boottime)` stands.
    fn position(&self, pid: u32, boottime: u64) -> (r: Option<usize>)
        ensures
            match r {
                Some(i) => i < self@.len() && self@[i as int].pid == pid && self@[i as int].boottime
                    == boottime && lookup(self@, pid, boottime) == Some(self@[i as int]),
                None => !has_key(self@, pid, boottime) && lookup(self@, pid, boottime) is None,
            },
    {
        let n: usize = self.memory_map.len();
        let mut i: usize = 0;
        while i < n
            invariant
                i <= n,
                n == self.memory_map@.len(),
                forall|k: int|
                    0 <= k < i ==> !(self.memory_map@[k].pid == pid && self.memory_map@[k].boottime
                        == boottime),
            decreases n - i,
        {
            if self.memory_map[i].pid == pid && self.memory_map[i].boottime == boottime {
                proof {
                    lemma_lookup_first(self@, pid, boottime, i as int);
                }
                return Some(i);
            }
            i = i + 1;
        }
        proof {
            lemma_lookup_none(self@, pid, boottime);
        }
        None
    }

    /// The entry of the process `(pid, boottime)`, if the cache holds one.
    pub fn get(&self, pid: u32, boottime: u64) -> (r: Option<&ProcessInfo>)
        ensures
            r is Some <==> has_key(self@, pid, boottime),
            r is Some ==> self@.contains(*r->0) && r->0.pid == pid && r->0.boottime == boottime,
            match r {
                Some(info) => lookup(self@, pid, boottime) == Some(*info),
                None => lookup(self@, pid, boottime) is None,
            },
    {
        match self.position(pid, boottime) {
            Some(i) => {
                assert(self@[i as int] == self.memory_map@[i as int]);
                Some(&self.memory_map[i])
            },
            None => None,
        }
    }

    /// Forgets the process `(pid, boottime)`; other entries stay as they are.
    pub fn remove(&mut self, pid: u32, boottime: u64)
        ensures
            final(self)@ == without_key(old(self)@, pid, boottime),
            !has_key(final(self)@, pid, boottime),
            distinct_keys(final(self)@),
    {
        proof {
            use_type_invariant(&*self);
            lemma_without_key_keeps(self.memory_map@, pid, boottime);
        }
        match self.position(pid, boottime) {
            Some(i) => {
                proof {
                    lemma_without_key_is_remove(self.memory_map@, i as int, pid, boottime);
                }
                let mut entries: Vec<ProcessInfo> = Vec::new();
                core::mem::swap(&mut entries, &mut self.memory_map);
                let _ = entries.remove(i);
                self.memory_map = entries;
            },
            None => {},
        }
    }

    /// Forgets every process whose pid is among `vanished`.
    pub fn prune(&mut self, vanished: &Vec<u32>)
        ensures
            final(self)@ == without_pids(old(self)@, vanished@),
            distinct_keys(final(self)@),
    {
        proof {
            use_type_invariant(&*self);
            lemma_without_pids_keeps(self.memory_map@, vanished@);
        }
        let ghost all = self.memory_map@;
        let mut entries: Vec<ProcessInfo> = Vec::new();
        core::mem::swap(&mut entries, &mut self.memory_map);
        let ghost mut k: int = 0;
        let mut i: usize = 0;
        assert(all.take(0) =~= Seq::<ProcessInfo>::empty());
        while i < entries.len()
            invariant
                0 <= k <= all.len(),
                i <= entries@.len(),
                entries@.len() - i == all.len() - k,
                entries@.take(i as int) == without_pids(all.take(k), vanished@),
                entries@.skip(i as int) == all.skip(k),
                distinct_keys(without_pids(all, vanished@)),
            decreases entries@.len() - i,
        {
            let ghost cur = entries@;
            assert(cur[i as int] == cur.skip(i as int)[0]);
            assert(all.skip(k)[0] == all[k]);
            assert(all.take(k + 1).drop_last() =~= all.take(k));
            if contains_pid(vanished, entries[i].pid) {
                let _ = entries.remove(i);
                assert(entries@.take(i as int) =~= cur.take(i as int));
                assert forall|j: int| 0 <= j < all.len() - k - 1 implies entries@.skip(
                    i as int,
                )[j] == all.skip(k + 1)[j] by {
                    assert(cur.skip(i as int)[j + 1] == all.skip(k)[j + 1]);
                }
                assert(entries@.skip(i as int) =~= all.skip(k + 1));
            } else {
                i = i + 1;
                assert(cur.take(i as int) =~= cur.take(i - 1).push(cur[i - 1]));
                assert forall|j: int| 0 <= j < all.len() - k - 1 implies cur.skip(i as int)[j]
                    == all.skip(k + 1)[j] by {
                    assert(cur.skip(i - 1)[j + 1] == all.skip(k)[j + 1]);
                }
                assert(cur.skip(i as int) =~= all.skip(k + 1));
            }
            proof {
                k = k + 1;
            }
        }
        assert(all.take(k) =~= all);
        assert(entries@.take(i as int) =~= entries@);
        self.memory_map = entries;
    }

    /// Remembers the process `(pid, boottime)` by what was read about it at
    /// exec time.
    ///
    /// A cache that is full first forgets the entries whose pid is among
    /// `vanished`, the pids whose process directory no longer exists. Without
    /// a memory map nothing is inserted and `false` is returned. An older
    /// entry of the same process is replaced.
    pub fn insert(
        &mut self,
        pid: u32,
        boottime: u64,
        snapshot: ProcSnapshot,
        vanished: &Vec<u32>,
    ) -> (inserted: bool)
        ensures
            inserted == (snapshot.maps is Some),
            distinct_keys(final(self)@),
            !inserted ==> final(self)@ == pruned_if_full(old(self)@, vanished@),
            inserted ==> ({
                let base = without_key(pruned_if_full(old(self)@, vanished@), pid, boottime);
                &&& final(self)@.len() == base.len() + 1
                &&& final(self)@.drop_last() == base
                &&& describes(
                    final(self)@.last(),
                    pid,
                    boottime,
                    snapshot.maps->0,
                    snapshot.cwd,
                    snapshot.cmdline,
                )
            }),
    {
        proof {
            use_type_invariant(&*self);
        }
        if self.is_full() {
            self.prune(vanished);
        }
        let ProcSnapshot { maps, cwd, cmdline } = snapshot;
        let maps: Vec<String> = match maps {
            Some(maps) => maps,
            None => {
                return false;
            },
        };
        let runtime: RuntimeKind = self.detect_runtime(&maps);
        let cmdline: Option<String> = match cmdline {
            Some(raw) => Some(join_cmdline(raw.as_slice())),
            None => None,
        };
        self.remove(pid, boottime);
        let ghost base = self.memory_map@;
        let info = ProcessInfo { pid, boottime, maps, runtime, cwd, cmdline };
        let mut entries: Vec<ProcessInfo> = Vec::new();
        core::mem::swap(&mut entries, &mut self.memory_map);
        entries.push(info);
        proof {
            assert(entries@.drop_last() =~= base);
            assert forall|i: int, j: int| 0 <= i < j < entries@.len() implies !(
            entries@[i].pid == entries@[j].pid && entries@[i].boottime
                == entries@[j].boottime) by {
                if j == base.len() {
                    assert(base[i].pid == pid && base[i].boottime == boottime ==> has_key(
                        base,
                        pid,
                        boottime,
                    ));
                } else {
                    assert(base[i] == entries@[i] && base[j] == entries@[j]);
                }
            }
        }
        self.memory_map = entries;
        true
    }

    /// The runtime of a memory map: that of its first line that gives one
    /// away, `Native` when no line does.
    pub fn detect_runtime(&self, maps: &Vec<String>) -> (kind: RuntimeKind)
        ensures
            kind == detected_runtime(maps@),
    {
        let n: usize = maps.len();
        let mut i: usize = 0;
        assert(maps@.skip(0) =~= maps@);
        while i < n
            invariant
                i <= n,
                n == maps@.len(),
                detected_runtime(maps@) == detected_runtime(maps@.skip(i as int)),
            decreases n - i,
        {
            assert(maps@.skip(i as int).drop_first() =~= maps@.skip(i + 1));
            match line_runtime(maps[i].as_str()) {
                Some(kind) => {
                    return kind;
                },
                None => {},
            }
            i = i + 1;
        }
        RuntimeKind::Native
    }
}

/// Whether `pid` is among `pids`.
fn contains_pid(pids: &Vec<u32>, pid: u32) -> (r: bool)
    ensures
        r == pids@.contains(pid),
{
    let n: usize = pids.len();
    let mut i: usize = 0;
    while i < n
        invariant
            i <= n,
            n == pids@.len(),
            forall|k: int| 0 <= k < i ==> pids@[k] != pid,
        decreases n - i,
    {
        if pids[i] == pid {
            return true;
        }
        i = i + 1;
    }
    false
}

/// Removing the one entry of a process is filtering by its key.
proof fn lemma_without_key_is_remove(s: Seq<ProcessInfo>, i: int, pid: u32, boottime: u64)
    requires
        distinct_keys(s),
        0 <= i < s.len(),
        s[i].pid == pid,
        s[i].boottime == boottime,
    ensures
        without_key(s, pid, boottime) == s.remove(i),
    decreases s.len(),
{
    let t = s.drop_last();
    assert forall|a: int, b: int| 0 <= a < b < t.len() implies !(t[a].pid == t[b].pid
        && t[a].boottime == t[b].boottime) by {
        assert(s[a] == t[a] && s[b] == t[b]);
    }
    if i == s.len() - 1 {
        if has_key(t, pid, boottime) {
            let a = choose|a: int| 0 <= a < t.len() && t[a].pid == pid && t[a].boottime == boottime;
            assert(s[a] == t[a]);
        }
        lemma_without_key_keeps(t, pid, boottime);
        assert(s.remove(i) =~= t);
    } else {
        lemma_without_key_is_remove(t, i, pid, boottime);
        assert(s.remove(i) =~= t.remove(i).push(s.last()));
    }
}

} // verus!
