//! The crash store: processes, their memory maps, crash records with the
//! full register bank, ordered stack frames, raw stack dumps and artifacts.
//!
//! The store holds its tables in memory. Each operation is all or nothing:
//! it returns with every row written, or with no row changed.

use crate::common::{SignalDeliverEvent, StackDump};
use crate::db::rows::{
    column_of, crash_row_of, frame_rows, from_column, to_column, ArtifactRow, CrashRow,
    CrashStatus, DumpRow, FrameRow, MapRow, ProcessRow,
};
use crate::db::tables::{
    artifact_of, artifact_outcome, artifacts_of_crash, artifacts_without, cleanup_outcome,
    completed_row, completion_outcome, crash_ids_of, crash_of_process, crash_outcome,
    crashes_without, dump_matches, dump_of_crash, dumps_without, first_crash, first_pending,
    frames_of_crash, frames_or_none, frames_without, has_crash_id, has_pending, has_process,
    has_process_id, lemma_without_process_wf, map_rows, maps_of_process, maps_without,
    process_outcome, process_row_id, processes_without, report_data_of, report_of,
    without_process, Tables,
};
use crate::seqs::lemma_filter_member;
use crate::state::map::ProcessInfo;
use vstd::prelude::*;

pub mod laws;
pub mod rows;
pub mod tables;

verus! {

/// The general-purpose register bank of x86_64 with `rip`, `rsp`, `rbp` and
/// `rflags`.
#[derive(Clone, Copy, Debug, PartialEq, Eq)]
pub struct Registers {
    pub rip: u64,
    pub rsp: u64,
    pub rbp: u64,
    pub rax: u64,
    pub rbx: u64,
    pub rcx: u64,
    pub rdx: u64,
    pub rsi: u64,
    pub rdi: u64,
    pub r8: u64,
    pub r9: u64,
    pub r10: u64,
    pub r11: u64,
    pub r12: u64,
    pub r13: u64,
    pub r14: u64,
    pub r15: u64,
    pub rflags: u64,
}

impl Registers {
    /// The register bank that a signal record carries.
    pub open spec fn of_event(e: SignalDeliverEvent) -> Registers {
        Registers {
            rip: e.rip,
            rsp: e.rsp,
            rbp: e.rbp,
            rax: e.rax,
            rbx: e.rbx,
            rcx: e.rcx,
            rdx: e.rdx,
            rsi: e.rsi,
            rdi: e.rdi,
            r8: e.r8,
            r9: e.r9,
            r10: e.r10,
            r11: e.r11,
            r12: e.r12,
            r13: e.r13,
            r14: e.r14,
            r15: e.r15,
            rflags: e.rflags,
        }
    }

    /// The register bank that a signal record carries.
    pub fn from_event(e: &SignalDeliverEvent) -> (r: Registers)
        ensures
            r == Registers::of_event(*e),
    {
        Registers {
            rip: e.rip,
            rsp: e.rsp,
            rbp: e.rbp,
            rax: e.rax,
            rbx: e.rbx,
            rcx: e.rcx,
            rdx: e.rdx,
            rsi: e.rsi,
            rdi: e.rdi,
            r8: e.r8,
            r9: e.r9,
            r10: e.r10,
            r11: e.r11,
            r12: e.r12,
            r13: e.r13,
            r14: e.r14,
            r15: e.r15,
            rflags: e.rflags,
        }
    }
}

/// A file that a language runtime left behind for a crash.
#[derive(Clone, Debug, PartialEq, Eq)]
pub struct ArtifactData {
    pub filename: String,
    pub full_path: String,
    pub content: Option<Vec<u8>>,
}

/// Everything the renderer needs to write the report of one crash.
#[derive(Clone, Debug, PartialEq, Eq)]
pub struct CrashReportData {
    pub cmd: String,
    pub pid: u32,
    pub tid: u32,
    pub signal: i32,
    pub si_code: i32,
    pub fault_addr: u64,
    pub exit_code: Option<u32>,
    pub runtime: String,
    pub registers: Registers,
    /// Instruction pointers of the user stack, innermost frame first.
    pub stack_frames: Vec<u64>,
    /// The stack pointer at the fault and the bytes captured from there on.
    pub stack_dump: Option<(u64, Vec<u8>)>,
    pub memory_maps: Vec<String>,
    pub artifacts: Vec<ArtifactData>,
}

/// Why the store could not do what it was asked.
#[derive(Clone, Copy, Debug, PartialEq, Eq, Structural)]
pub enum StoreError {
    /// No row id is left for a new row.
    Full,
    /// No crash has the id that was asked for.
    CrashNotFound,
}

/// Whether `id` is among `ids`.
fn contains_id(ids: &Vec<i64>, id: i64) -> (r: bool)
    ensures
        r == ids@.contains(id),
{
    let n: usize = ids.len();
    let mut i: usize = 0;
    while i < n
        invariant
            i <= n,
            n == ids@.len(),
            forall|k: int| 0 <= k < i ==> ids@[k] != id,
        decreases n - i,
    {
        if ids[i] == id {
            return true;
        }
        i = i + 1;
    }
    false
}

/// Removes from `rows` the process row with the id `process_id`.
fn delete_process_row(rows: &mut Vec<ProcessRow>, process_id: i64)
    ensures
        final(rows)@ == processes_without(old(rows)@, process_id),
{
    let mut taken: Vec<ProcessRow> = Vec::new();
    core::mem::swap(rows, &mut taken);
    let ghost all = taken@;
    assert(rows@ =~= processes_without(all.take(0), process_id)) by {
        reveal(Seq::filter);
    }
    for row in it: taken
        invariant
            it.seq() == all,
            rows@ == processes_without(all.take(it.index() as int), process_id),
    {
        proof {
            reveal(Seq::filter);
            assert(all.take(it.index() + 1).drop_last() =~= all.take(it.index() as int));
        }
        if row.id != process_id {
            rows.push(row);
        }
    }
    assert(all.take(all.len() as int) =~= all);
}

/// Removes from `rows` the crashes of the process row `process_id`.
fn delete_crashes(rows: &mut Vec<CrashRow>, process_id: i64)
    ensures
        final(rows)@ == crashes_without(old(rows)@, process_id),
{
    let mut taken: Vec<CrashRow> = Vec::new();
    core::mem::swap(rows, &mut taken);
    let ghost all = taken@;
    assert(rows@ =~= crashes_without(all.take(0), process_id)) by {
        reveal(Seq::filter);
    }
    for row in it: taken
        invariant
            it.seq() == all,
            rows@ == crashes_without(all.take(it.index() as int), process_id),
    {
        proof {
            reveal(Seq::filter);
            assert(all.take(it.index() + 1).drop_last() =~= all.take(it.index() as int));
        }
        if row.process_id != process_id {
            rows.push(row);
        }
    }
    assert(all.take(all.len() as int) =~= all);
}

/// Removes from `rows` the frames of the crashes `dead`.
fn delete_frames(rows: &mut Vec<FrameRow>, dead: &Vec<i64>)
    ensures
        final(rows)@ == frames_without(old(rows)@, dead@),
{
    let mut taken: Vec<FrameRow> = Vec::new();
    core::mem::swap(rows, &mut taken);
    let ghost all = taken@;
    assert(rows@ =~= frames_without(all.take(0), dead@)) by {
        reveal(Seq::filter);
    }
    for row in it: taken
        invariant
            it.seq() == all,
            rows@ == frames_without(all.take(it.index() as int), dead@),
    {
        proof {
            reveal(Seq::filter);
            assert(all.take(it.index() + 1).drop_last() =~= all.take(it.index() as int));
        }
        if !contains_id(dead, row.crash_id) {
            rows.push(row);
        }
    }
    assert(all.take(all.len() as int) =~= all);
}

/// Removes from `rows` the dumps of the crashes `dead`.
fn delete_dumps(rows: &mut Vec<DumpRow>, dead: &Vec<i64>)
    ensures
        final(rows)@ == dumps_without(old(rows)@, dead@),
{
    let mut taken: Vec<DumpRow> = Vec::new();
    core::mem::swap(rows, &mut taken);
    let ghost all = taken@;
    assert(rows@ =~= dumps_without(all.take(0), dead@)) by {
        reveal(Seq::filter);
    }
    for row in it: taken
        invariant
            it.seq() == all,
            rows@ == dumps_without(all.take(it.index() as int), dead@),
    {
        proof {
            reveal(Seq::filter);
            assert(all.take(it.index() + 1).drop_last() =~= all.take(it.index() as int));
        }
        if !contains_id(dead, row.crash_id) {
            rows.push(row);
        }
    }
    assert(all.take(all.len() as int) =~= all);
}

/// Removes from `rows` the artifacts of the process row `process_id`.
fn delete_artifacts(rows: &mut Vec<ArtifactRow>, process_id: i64)
    ensures
        final(rows)@ == artifacts_without(old(rows)@, process_id),
{
    let mut taken: Vec<ArtifactRow> = Vec::new();
    core::mem::swap(rows, &mut taken);
    let ghost all = taken@;
    assert(rows@ =~= artifacts_without(all.take(0), process_id)) by {
        reveal(Seq::filter);
    }
    for row in it: taken
        invariant
            it.seq() == all,
            rows@ == artifacts_without(all.take(it.index() as int), process_id),
    {
        proof {
            reveal(Seq::filter);
            assert(all.take(it.index() + 1).drop_last() =~= all.take(it.index() as int));
        }
        if row.process_id != process_id {
            rows.push(row);
        }
    }
    assert(all.take(all.len() as int) =~= all);
}

/// The tables of the store and the next ids, without their invariant.
struct Store {
    processes: Vec<ProcessRow>,
    memory_maps: Vec<MapRow>,
    crashes: Vec<CrashRow>,
    stack_frames: Vec<FrameRow>,
    stack_dumps: Vec<DumpRow>,
    artifacts: Vec<ArtifactRow>,
    next_process_id: i64,
    next_crash_id: i64,
}

impl View for Store {
    type V = Tables;

    /// The six tables and the next ids.
    closed spec fn view(&self) -> Tables {
        Tables {
            processes: self.processes@,
            memory_maps: self.memory_maps@,
            crashes: self.crashes@,
            stack_frames: self.stack_frames@,
            stack_dumps: self.stack_dumps@,
            artifacts: self.artifacts@,
            next_process_id: self.next_process_id,
            next_crash_id: self.next_crash_id,
        }
    }
}

/// Removes from `rows` the lines of the memory map of the process row
/// `process_id`.
fn delete_maps(rows: &mut Vec<MapRow>, process_id: i64)
    ensures
        final(rows)@ == maps_without(old(rows)@, process_id),
{
    let mut taken: Vec<MapRow> = Vec::new();
    core::mem::swap(rows, &mut taken);
    let ghost all = taken@;
    assert(rows@ =~= maps_without(all.take(0), process_id)) by {
        reveal(Seq::filter);
    }
    for row in it: taken
        invariant
            it.seq() == all,
            rows@ == maps_without(all.take(it.index() as int), process_id),
    {
        proof {
            reveal(Seq::filter);
            assert(all.take(it.index() + 1).drop_last() =~= all.take(it.index() as int));
        }
        if row.process_id != process_id {
            rows.push(row);
        }
    }
    assert(all.take(all.len() as int) =~= all);
}

impl Store {
    /// The invariant of the store holds of its contents.
    spec fn wf(&self) -> bool {
        self@.wf()
    }

    /// A store with no rows.
    fn new() -> (db: Store)
        ensures
            db@ == Tables::empty(),
            db.wf(),
    {
        Store {
            processes: Vec::new(),
            memory_maps: Vec::new(),
            crashes: Vec::new(),
            stack_frames: Vec::new(),
            stack_dumps: Vec::new(),
            artifacts: Vec::new(),
            next_process_id: 1,
            next_crash_id: 1,
        }
    }

    /// A store with no rows whose first process row and first crash row get
    /// the ids given, or 1 where an id given is below 1: a store that goes
    /// on where the row ids of another left off.
    fn with_first_ids(first_process_id: i64, first_crash_id: i64) -> (db: Store)
        ensures
            db.wf(),
            db@ == (Tables {
                next_process_id: if first_process_id < 1 {
                    1
                } else {
                    first_process_id
                },
                next_crash_id: if first_crash_id < 1 {
                    1
                } else {
                    first_crash_id
                },
                ..Tables::empty()
            }),
    {
        Store {
            processes: Vec::new(),
            memory_maps: Vec::new(),
            crashes: Vec::new(),
            stack_frames: Vec::new(),
            stack_dumps: Vec::new(),
            artifacts: Vec::new(),
            next_process_id: if first_process_id < 1 {
                1
            } else {
                first_process_id
            },
            next_crash_id: if first_crash_id < 1 {
                1
            } else {
                first_crash_id
            },
        }
    }

    /// The rows of `processes`, in insertion order.
    fn processes(&self) -> (rows: &Vec<ProcessRow>)
        ensures
            rows@ == self@.processes,
    {
        &self.processes
    }

    /// The rows of `memory_maps`, in insertion order.
    fn memory_maps(&self) -> (rows: &Vec<MapRow>)
        ensures
            rows@ == self@.memory_maps,
    {
        &self.memory_maps
    }

    /// The rows of `crashes`, in insertion order.
    fn crashes(&self) -> (rows: &Vec<CrashRow>)
        ensures
            rows@ == self@.crashes,
    {
        &self.crashes
    }

    /// The rows of `stack_frames`, in insertion order.
    fn stack_frames(&self) -> (rows: &Vec<FrameRow>)
        ensures
            rows@ == self@.stack_frames,
    {
        &self.stack_frames
    }

    /// The rows of `stack_dumps`, in insertion order.
    fn stack_dumps(&self) -> (rows: &Vec<DumpRow>)
        ensures
            rows@ == self@.stack_dumps,
    {
        &self.stack_dumps
    }

    /// The rows of `artifacts`, in insertion order.
    fn artifacts(&self) -> (rows: &Vec<ArtifactRow>)
        ensures
            rows@ == self@.artifacts,
    {
        &self.artifacts
    }

    /// Where the row of the process `(pid, boottime)` stands.
    fn process_position(&self, pid: i64, boottime: i64) -> (r: Option<usize>)
        ensures
            match r {
                Some(i) => i < self@.processes.len() && self@.processes[i as int].pid == pid
                    && self@.processes[i as int].boottime == boottime,
                None => !has_process(self@.processes, pid, boottime),
            },
    {
        let n: usize = self.processes.len();
        let mut i: usize = 0;
        while i < n
            invariant
                i <= n,
                n == self.processes@.len(),
                forall|k: int|
                    0 <= k < i ==> !((#[trigger] self.processes@[k]).pid == pid
                        && self.processes@[k].boottime == boottime),
            decreases n - i,
        {
            if self.processes[i].pid == pid && self.processes[i].boottime == boottime {
                return Some(i);
            }
            i = i + 1;
        }
        None
    }

    /// The id of the row of the process `(pid, boottime)`, if there is one.
    fn process_id(&self, pid: u32, boottime: u64) -> (r: Option<i64>)
        ensures
            r is Some <==> has_process(self@.processes, pid as i64, column_of(boottime)),
            r is Some ==> process_row_id(
                self@.processes,
                pid as i64,
                column_of(boottime),
                r->0,
            ),
    {
        match self.process_position(pid as i64, to_column(boottime)) {
            Some(i) => Some(self.processes[i].id),
            None => None,
        }
    }

    /// Stores the process `info`: a new row, or new values in the row that
    /// the process already has, and its memory map in place of the one stored
    /// before. Returns the id of the row.
    fn insert_process(&mut self, info: &ProcessInfo) -> (r: Result<i64, StoreError>)
        requires
            old(self).wf(),
        ensures
            final(self).wf(),
            process_outcome(old(self)@, *info, final(self)@, r),
    {
        let pid: i64 = info.pid as i64;
        let boottime: i64 = to_column(info.boottime);
        let ghost before = self@;
        let id: i64 = match self.process_position(pid, boottime) {
            Some(i) => {
                let id: i64 = self.processes[i].id;
                let row = ProcessRow::from_info(id, info);
                self.processes[i] = row;
                proof {
                    assert forall|k: int| 0 <= k < self.crashes@.len() implies has_process_id(
                        self.processes@,
                        (#[trigger] self.crashes@[k]).process_id,
                    ) by {
                        assert(before.crashes[k] == self.crashes@[k]);
                        let w = choose|w: int|
                            0 <= w < before.processes.len() && (#[trigger] before.processes[w]).id
                                == self.crashes@[k].process_id;
                        assert(self.processes@[w].id == self.crashes@[k].process_id);
                    }
                    assert forall|k: int| 0 <= k < self.memory_maps@.len() implies has_process_id(
                        self.processes@,
                        (#[trigger] self.memory_maps@[k]).process_id,
                    ) by {
                        assert(before.memory_maps[k] == self.memory_maps@[k]);
                        let w = choose|w: int|
                            0 <= w < before.processes.len() && (#[trigger] before.processes[w]).id
                                == self.memory_maps@[k].process_id;
                        assert(self.processes@[w].id == self.memory_maps@[k].process_id);
                    }
                    assert(has_process(before.processes, pid, boottime)) by {
                        assert(before.processes[i as int].pid == pid);
                    }
                }
                id
            },
            None => {
                if self.next_process_id == i64::MAX {
                    return Err(StoreError::Full);
                }
                let id: i64 = self.next_process_id;
                let row = ProcessRow::from_info(id, info);
                self.processes.push(row);
                self.next_process_id = id + 1;
                proof {
                    assert(self.processes@.drop_last() =~= before.processes);
                    assert forall|k: int| 0 <= k < self.crashes@.len() implies has_process_id(
                        self.processes@,
                        (#[trigger] self.crashes@[k]).process_id,
                    ) by {
                        assert(before.crashes[k] == self.crashes@[k]);
                        let w = choose|w: int|
                            0 <= w < before.processes.len() && (#[trigger] before.processes[w]).id
                                == self.crashes@[k].process_id;
                        assert(self.processes@[w].id == self.crashes@[k].process_id);
                    }
                    assert forall|k: int| 0 <= k < self.memory_maps@.len() implies has_process_id(
                        self.processes@,
                        (#[trigger] self.memory_maps@[k]).process_id,
                    ) by {
                        assert(before.memory_maps[k] == self.memory_maps@[k]);
                        let w = choose|w: int|
                            0 <= w < before.processes.len() && (#[trigger] before.processes[w]).id
                                == self.memory_maps@[k].process_id;
                        assert(self.processes@[w].id == self.memory_maps@[k].process_id);
                    }
                    assert forall|a: int, b: int|
                        0 <= a < b < self.processes@.len() implies !((
                    #[trigger] self.processes@[a]).pid == (#[trigger] self.processes@[b]).pid
                        && self.processes@[a].boottime == self.processes@[b].boottime) by {
                        if b < before.processes.len() {
                            assert(before.processes[a] == self.processes@[a]);
                            assert(before.processes[b] == self.processes@[b]);
                        } else {
                            assert(before.processes[a] == self.processes@[a]);
                        }
                    }
                }
                id
            },
        };
        assert(has_process_id(self.processes@, id)) by {
            if has_process(before.processes, pid, boottime) {
                let w = choose|w: int|
                    0 <= w < before.processes.len() && (#[trigger] before.processes[w]).pid == pid
                        && before.processes[w].boottime == boottime;
                assert(self.processes@[w].id == id);
            } else {
                assert(self.processes@[self.processes@.len() - 1].id == id);
            }
        }
        let ghost old_maps = self.memory_maps@;
        let ghost procs = self.processes@;
        assert(forall|k: int|
            0 <= k < old_maps.len() ==> has_process_id(procs, (#[trigger] old_maps[k]).process_id));
        delete_maps(&mut self.memory_maps, id);
        let ghost kept = self.memory_maps@;
        let ghost mid_next = self.next_process_id;
        let n: usize = info.maps.len();
        let mut i: usize = 0;
        assert(self.memory_maps@ =~= kept + map_rows(id, info.maps@.take(0)));
        while i < n
            invariant
                i <= n,
                n == info.maps@.len(),
                self.memory_maps@ == kept + map_rows(id, info.maps@.take(i as int)),
                self.processes@ == procs,
                self.crashes@ == before.crashes,
                self.stack_frames@ == before.stack_frames,
                self.stack_dumps@ == before.stack_dumps,
                self.artifacts@ == before.artifacts,
                self.next_crash_id == before.next_crash_id,
                self.next_process_id == mid_next,
            decreases n - i,
        {
            let line_num: i64 = #[verifier::truncate] (i as i64);
            self.memory_maps.push(
                MapRow { process_id: id, line_num, content: info.maps[i].clone() },
            );
            i = i + 1;
            assert(self.memory_maps@ =~= kept + map_rows(id, info.maps@.take(i as int)));
        }
        assert(info.maps@.take(n as int) =~= info.maps@);
        proof {
            assert forall|k: int| 0 <= k < self.memory_maps@.len() implies has_process_id(
                self.processes@,
                (#[trigger] self.memory_maps@[k]).process_id,
            ) by {
                if k < kept.len() {
                    lemma_filter_member(old_maps, |r: MapRow| r.process_id != id, k);
                    let j = choose|j: int| 0 <= j < old_maps.len() && old_maps[j] == kept[k];
                    assert(has_process_id(procs, old_maps[j].process_id));
                } else {
                    assert(self.memory_maps@[k].process_id == id);
                }
            }
        }
        Ok(id)
    }

    /// Stores the pending crash of the signal record `crash` with the frames
    /// of its user stack and its raw stack dump, under the process row of
    /// `(crash.pid, crash.boottime)`. Without such a row nothing is stored
    /// and `None` is returned.
    fn insert_crash(
        &mut self,
        crash: &SignalDeliverEvent,
        stack_trace: Option<&Vec<u64>>,
        stack_dump: Option<&StackDump>,
    ) -> (r: Result<Option<i64>, StoreError>)
        requires
            old(self).wf(),
        ensures
            final(self).wf(),
            crash_outcome(old(self)@, *crash, stack_trace, stack_dump, final(self)@, r),
    {
        let ghost before = self@;
        let pid: i64 = crash.pid as i64;
        let boottime: i64 = to_column(crash.boottime);
        let at: usize = match self.process_position(pid, boottime) {
            Some(at) => at,
            None => {
                return Ok(None);
            },
        };
        assert(has_process(before.processes, pid, boottime)) by {
            assert(before.processes[at as int].pid == pid);
        }
        if self.next_crash_id == i64::MAX {
            return Err(StoreError::Full);
        }
        let process_id: i64 = self.processes[at].id;
        let id: i64 = self.next_crash_id;
        let row = CrashRow::from_event(id, process_id, crash);
        self.crashes.push(row);
        self.next_crash_id = id + 1;
        assert(self.crashes@.drop_last() =~= before.crashes);
        let ghost frames: Seq<u64> = frames_or_none(stack_trace);
        match stack_trace {
            Some(trace) => {
                let n: usize = trace.len();
                let mut i: usize = 0;
                assert(self.stack_frames@ =~= before.stack_frames + frame_rows(id, frames.take(0)));
                while i < n
                    invariant
                        i <= n,
                        n == trace@.len(),
                        frames == trace@,
                        self.stack_frames@ == before.stack_frames + frame_rows(
                            id,
                            frames.take(i as int),
                        ),
                        self.processes@ == before.processes,
                        self.memory_maps@ == before.memory_maps,
                        self.crashes@.drop_last() == before.crashes,
                        self.crashes@.len() == before.crashes.len() + 1,
                        crash_row_of(self.crashes@.last(), id, process_id, *crash),
                        self.stack_dumps@ == before.stack_dumps,
                        self.artifacts@ == before.artifacts,
                        self.next_process_id == before.next_process_id,
                        self.next_crash_id == id + 1,
                    decreases n - i,
                {
                    let frame_index: i64 = #[verifier::truncate] (i as i64);
                    self.stack_frames.push(
                        FrameRow { crash_id: id, frame_index, ip: to_column(trace[i]) },
                    );
                    i = i + 1;
                    assert(self.stack_frames@ =~= before.stack_frames + frame_rows(
                        id,
                        frames.take(i as int),
                    ));
                }
                assert(frames.take(n as int) =~= frames);
            },
            None => {
                assert(self.stack_frames@ =~= before.stack_frames + frame_rows(id, frames));
            },
        }
        match stack_dump {
            Some(dump) => {
                self.stack_dumps.push(DumpRow::from_dump(id, dump));
                assert(self.stack_dumps@.drop_last() =~= before.stack_dumps);
            },
            None => {},
        }
        proof {
            let after = self@;
            assert(after.crashes[after.crashes.len() - 1].id == id);
            assert forall|i: int| 0 <= i < after.crashes.len() implies 1 <= (
            #[trigger] after.crashes[i]).id < after.next_crash_id by {
                if i < before.crashes.len() {
                    assert(before.crashes[i] == after.crashes[i]);
                }
            }
            assert forall|i: int, j: int| 0 <= i < j < after.crashes.len() implies (
            #[trigger] after.crashes[i]).id < (#[trigger] after.crashes[j]).id by {
                assert(before.crashes[i] == after.crashes[i]);
                if j < before.crashes.len() {
                    assert(before.crashes[j] == after.crashes[j]);
                }
            }
            assert forall|i: int| 0 <= i < after.crashes.len() implies has_process_id(
                after.processes,
                (#[trigger] after.crashes[i]).process_id,
            ) by {
                if i < before.crashes.len() {
                    assert(before.crashes[i] == after.crashes[i]);
                } else {
                    assert(after.processes[at as int].id == process_id);
                }
            }
            assert forall|i: int|
                0 <= i < after.crashes.len() && (#[trigger] after.crashes[i]).status
                    == CrashStatus::Complete implies after.crashes[i].exit_code is Some by {
                if i < before.crashes.len() {
                    assert(before.crashes[i] == after.crashes[i]);
                }
            }
            assert forall|c: i64| has_crash_id(before.crashes, c) implies has_crash_id(
                after.crashes,
                c,
            ) by {
                let w = choose|w: int|
                    0 <= w < before.crashes.len() && (#[trigger] before.crashes[w]).id == c;
                assert(after.crashes[w].id == c);
            }
            assert(has_crash_id(after.crashes, id));
            assert forall|i: int| 0 <= i < after.stack_frames.len() implies has_crash_id(
                after.crashes,
                (#[trigger] after.stack_frames[i]).crash_id,
            ) by {
                if i < before.stack_frames.len() {
                    assert(before.stack_frames[i] == after.stack_frames[i]);
                }
            }
            assert forall|i: int| 0 <= i < after.stack_dumps.len() implies has_crash_id(
                after.crashes,
                (#[trigger] after.stack_dumps[i]).crash_id,
            ) by {
                if i < before.stack_dumps.len() {
                    assert(before.stack_dumps[i] == after.stack_dumps[i]);
                }
            }
            assert forall|i: int, j: int| 0 <= i < j < after.stack_dumps.len() implies (
            #[trigger] after.stack_dumps[i]).crash_id != (
            #[trigger] after.stack_dumps[j]).crash_id by {
                assert(before.stack_dumps[i] == after.stack_dumps[i]);
                if j < before.stack_dumps.len() {
                    assert(before.stack_dumps[j] == after.stack_dumps[j]);
                } else {
                    let w = choose|w: int|
                        0 <= w < before.crashes.len() && (#[trigger] before.crashes[w]).id
                            == before.stack_dumps[i].crash_id;
                    assert(before.crashes[w].id < id);
                }
            }
            assert forall|i: int| 0 <= i < after.artifacts.len() implies crash_of_process(
                after.crashes,
                (#[trigger] after.artifacts[i]).crash_id,
                after.artifacts[i].process_id,
            ) by {
                assert(before.artifacts[i] == after.artifacts[i]);
                let w = choose|w: int|
                    0 <= w < before.crashes.len() && (#[trigger] before.crashes[w]).id
                        == before.artifacts[i].crash_id && before.crashes[w].process_id
                        == before.artifacts[i].process_id;
                assert(after.crashes[w] == before.crashes[w]);
            }
            assert(process_row_id(before.processes, pid, boottime, process_id)) by {
                assert(before.processes[at as int].id == process_id);
            }
            assert(after.memory_maps == before.memory_maps);
            assert(after.processes == before.processes);
            assert forall|i: int| 0 <= i < after.memory_maps.len() implies has_process_id(
                after.processes,
                (#[trigger] after.memory_maps[i]).process_id,
            ) by {
                assert(has_process_id(before.processes, before.memory_maps[i].process_id));
            }
            assert forall|i: int, j: int| 0 <= i < j < after.stack_dumps.len() implies (
            #[trigger] after.stack_dumps[i]).crash_id != (
            #[trigger] after.stack_dumps[j]).crash_id by {
                if after.stack_dumps == before.stack_dumps {
                    assert(before.stack_dumps[i].crash_id != before.stack_dumps[j].crash_id);
                }
            }
        }
        Ok(Some(id))
    }

    /// Where the first pending crash of the process row `process_id` stands.
    fn pending_position(&self, process_id: i64) -> (r: Option<usize>)
        ensures
            match r {
                Some(i) => first_pending(self@.crashes, process_id, i as int),
                None => !has_pending(self@.crashes, process_id),
            },
    {
        let n: usize = self.crashes.len();
        let mut i: usize = 0;
        while i < n
            invariant
                i <= n,
                n == self.crashes@.len(),
                forall|k: int|
                    0 <= k < i ==> !((#[trigger] self.crashes@[k]).process_id == process_id
                        && self.crashes@[k].status == CrashStatus::Pending),
            decreases n - i,
        {
            if self.crashes[i].process_id == process_id && is_pending(&self.crashes[i].status) {
                return Some(i);
            }
            i = i + 1;
        }
        None
    }

    /// Completes the pending crash of the process `(pid, boottime)` with its
    /// exit code and returns the id of the crash. Where the process has
    /// several pending crashes, the oldest is completed. Without such a
    /// process or such a crash nothing changes and `None` is returned.
    fn complete_crash(&mut self, pid: u32, boottime: u64, exit_code: u32) -> (r: Option<i64>)
        requires
            old(self).wf(),
        ensures
            final(self).wf(),
            completion_outcome(old(self)@, pid, boottime, exit_code, final(self)@, r),
    {
        let ghost before = self@;
        let at: usize = match self.process_position(pid as i64, to_column(boottime)) {
            Some(at) => at,
            None => {
                return None;
            },
        };
        let process_id: i64 = self.processes[at].id;
        proof {
            assert(before.processes[at as int].id == process_id);
            assert(process_row_id(before.processes, pid as i64, column_of(boottime), process_id));
            assert forall|other: i64| #[trigger]
                process_row_id(
                    before.processes,
                    pid as i64,
                    column_of(boottime),
                    other,
                ) implies other == process_id by {
                let w = choose|w: int|
                    0 <= w < before.processes.len() && (#[trigger] before.processes[w]).pid
                        == pid as i64 && before.processes[w].boottime == column_of(boottime)
                        && before.processes[w].id == other;
                if w < at {
                    assert(before.processes[w].pid == before.processes[at as int].pid);
                } else if at < w {
                    assert(before.processes[at as int].pid == before.processes[w].pid);
                }
            }
        }
        let i: usize = match self.pending_position(process_id) {
            Some(i) => i,
            None => {
                return None;
            },
        };
        let id: i64 = self.crashes[i].id;
        self.crashes[i].status = CrashStatus::Complete;
        self.crashes[i].exit_code = Some(exit_code as i64);
        proof {
            let after = self@;
            assert(after.crashes[i as int] == completed_row(before.crashes[i as int], exit_code));
            assert forall|k: int| 0 <= k < after.crashes.len() implies has_process_id(
                after.processes,
                (#[trigger] after.crashes[k]).process_id,
            ) by {
                assert(before.crashes[k].process_id == after.crashes[k].process_id);
            }
            assert forall|k: int| 0 <= k < after.crashes.len() implies 1 <= (
            #[trigger] after.crashes[k]).id < after.next_crash_id by {
                assert(before.crashes[k].id == after.crashes[k].id);
            }
            assert forall|a: int, b: int| 0 <= a < b < after.crashes.len() implies (
            #[trigger] after.crashes[a]).id < (#[trigger] after.crashes[b]).id by {
                assert(before.crashes[a].id == after.crashes[a].id);
                assert(before.crashes[b].id == after.crashes[b].id);
            }
            assert forall|k: int|
                0 <= k < after.crashes.len() && (#[trigger] after.crashes[k]).status
                    == CrashStatus::Complete implies after.crashes[k].exit_code is Some by {
                if k != i {
                    assert(before.crashes[k] == after.crashes[k]);
                }
            }
            assert forall|c: i64, p: i64| crash_of_process(before.crashes, c, p) implies
                crash_of_process(after.crashes, c, p) by {
                let w = choose|w: int|
                    0 <= w < before.crashes.len() && (#[trigger] before.crashes[w]).id == c
                        && before.crashes[w].process_id == p;
                assert(after.crashes[w].id == c && after.crashes[w].process_id == p);
            }
            assert forall|c: i64| has_crash_id(before.crashes, c) implies has_crash_id(
                after.crashes,
                c,
            ) by {
                let w = choose|w: int|
                    0 <= w < before.crashes.len() && (#[trigger] before.crashes[w]).id == c;
                assert(after.crashes[w].id == c);
            }
            assert forall|k: int| 0 <= k < after.stack_frames.len() implies has_crash_id(
                after.crashes,
                (#[trigger] after.stack_frames[k]).crash_id,
            ) by {
                assert(before.stack_frames[k] == after.stack_frames[k]);
            }
            assert forall|k: int| 0 <= k < after.stack_dumps.len() implies has_crash_id(
                after.crashes,
                (#[trigger] after.stack_dumps[k]).crash_id,
            ) by {
                assert(before.stack_dumps[k] == after.stack_dumps[k]);
            }
            assert forall|k: int| 0 <= k < after.artifacts.len() implies crash_of_process(
                after.crashes,
                (#[trigger] after.artifacts[k]).crash_id,
                after.artifacts[k].process_id,
            ) by {
                assert(before.artifacts[k] == after.artifacts[k]);
            }
            assert(after.crashes =~= before.crashes.update(
                i as int,
                completed_row(before.crashes[i as int], exit_code),
            ));
            assert(first_pending(before.crashes, process_id, i as int));
            assert(after.memory_maps == before.memory_maps);
            assert(after.processes == before.processes);
            assert forall|i: int| 0 <= i < after.memory_maps.len() implies has_process_id(
                after.processes,
                (#[trigger] after.memory_maps[i]).process_id,
            ) by {
                assert(has_process_id(before.processes, before.memory_maps[i].process_id));
            }
            assert forall|i: int, j: int| 0 <= i < j < after.stack_dumps.len() implies (
            #[trigger] after.stack_dumps[i]).crash_id != (
            #[trigger] after.stack_dumps[j]).crash_id by {
                if after.stack_dumps == before.stack_dumps {
                    assert(before.stack_dumps[i].crash_id != before.stack_dumps[j].crash_id);
                }
            }
        }
        Some(id)
    }

    /// Where the crash with the id `crash_id` stands.
    fn crash_position(&self, crash_id: i64) -> (r: Option<usize>)
        ensures
            match r {
                Some(i) => i < self@.crashes.len() && self@.crashes[i as int].id == crash_id,
                None => !has_crash_id(self@.crashes, crash_id),
            },
    {
        let n: usize = self.crashes.len();
        let mut i: usize = 0;
        while i < n
            invariant
                i <= n,
                n == self.crashes@.len(),
                forall|k: int| 0 <= k < i ==> (#[trigger] self.crashes@[k]).id != crash_id,
            decreases n - i,
        {
            if self.crashes[i].id == crash_id {
                return Some(i);
            }
            i = i + 1;
        }
        None
    }

    /// Where the process row with the id `process_id` stands.
    fn process_row_position(&self, process_id: i64) -> (r: Option<usize>)
        ensures
            match r {
                Some(i) => i < self@.processes.len() && self@.processes[i as int].id == process_id,
                None => !has_process_id(self@.processes, process_id),
            },
    {
        let n: usize = self.processes.len();
        let mut i: usize = 0;
        while i < n
            invariant
                i <= n,
                n == self.processes@.len(),
                forall|k: int| 0 <= k < i ==> (#[trigger] self.processes@[k]).id != process_id,
            decreases n - i,
        {
            if self.processes[i].id == process_id {
                return Some(i);
            }
            i = i + 1;
        }
        None
    }

    /// Everything the renderer needs of the crash with the id `crash_id`:
    /// the crash row and the row of its process, its frames in order, its
    /// dump cut to its declared length, the memory map of the process and the
    /// artifacts of the crash.
    fn get_crash_report_data(&self, crash_id: i64) -> (r: Result<CrashReportData, StoreError>)
        requires
            self.wf(),
        ensures
            r is Err <==> !has_crash_id(self@.crashes, crash_id),
            r is Err ==> r->Err_0 == StoreError::CrashNotFound,
            r is Ok ==> report_data_of(r->Ok_0, self@, crash_id),
    {
        let i: usize = match self.crash_position(crash_id) {
            Some(i) => i,
            None => {
                return Err(StoreError::CrashNotFound);
            },
        };
        assert(has_crash_id(self@.crashes, crash_id)) by {
            assert(self@.crashes[i as int].id == crash_id);
        }
        let crash: &CrashRow = &self.crashes[i];
        assert(has_process_id(self@.processes, self@.crashes[i as int].process_id));
        let j: usize = match self.process_row_position(crash.process_id) {
            Some(j) => j,
            None => {
                return Err(StoreError::CrashNotFound);
            },
        };
        let process: &ProcessRow = &self.processes[j];
        let process_id: i64 = process.id;

        let mut stack_frames: Vec<u64> = Vec::new();
        let n_frames: usize = self.stack_frames.len();
        let mut k: usize = 0;
        while k < n_frames
            invariant
                k <= n_frames,
                n_frames == self.stack_frames@.len(),
                stack_frames@ == frames_of_crash(self.stack_frames@.take(k as int), crash_id),
            decreases n_frames - k,
        {
            assert(self.stack_frames@.take(k + 1).drop_last() =~= self.stack_frames@.take(
                k as int,
            ));
            if self.stack_frames[k].crash_id == crash_id {
                stack_frames.push(from_column(self.stack_frames[k].ip));
            }
            k = k + 1;
        }
        assert(self.stack_frames@.take(n_frames as int) =~= self.stack_frames@);

        let mut stack_dump: Option<(u64, Vec<u8>)> = None;
        let n_dumps: usize = self.stack_dumps.len();
        let mut k: usize = 0;
        while k < n_dumps
            invariant
                k <= n_dumps,
                n_dumps == self.stack_dumps@.len(),
                match dump_of_crash(self.stack_dumps@.take(k as int), crash_id) {
                    None => stack_dump is None,
                    Some(row) => dump_matches(stack_dump, row),
                },
            decreases n_dumps - k,
        {
            assert(self.stack_dumps@.take(k + 1).drop_last() =~= self.stack_dumps@.take(k as int));
            if stack_dump.is_none() && self.stack_dumps[k].crash_id == crash_id {
                stack_dump = Some(self.stack_dumps[k].to_dump());
            }
            k = k + 1;
        }
        assert(self.stack_dumps@.take(n_dumps as int) =~= self.stack_dumps@);

        let mut memory_maps: Vec<String> = Vec::new();
        let n_maps: usize = self.memory_maps.len();
        let mut k: usize = 0;
        while k < n_maps
            invariant
                k <= n_maps,
                n_maps == self.memory_maps@.len(),
                memory_maps@ == maps_of_process(self.memory_maps@.take(k as int), process_id),
            decreases n_maps - k,
        {
            assert(self.memory_maps@.take(k + 1).drop_last() =~= self.memory_maps@.take(k as int));
            if self.memory_maps[k].process_id == process_id {
                memory_maps.push(self.memory_maps[k].content.clone());
            }
            k = k + 1;
        }
        assert(self.memory_maps@.take(n_maps as int) =~= self.memory_maps@);

        let mut artifacts: Vec<ArtifactData> = Vec::new();
        let n_artifacts: usize = self.artifacts.len();
        let mut k: usize = 0;
        assert(artifacts_of_crash(self.artifacts@.take(0), crash_id).len() == 0) by {
            reveal(Seq::filter);
        }
        while k < n_artifacts
            invariant
                k <= n_artifacts,
                n_artifacts == self.artifacts@.len(),
                artifacts@.len() == artifacts_of_crash(
                    self.artifacts@.take(k as int),
                    crash_id,
                ).len(),
                forall|a: int|
                    0 <= a < artifacts@.len() ==> artifact_of(
                        #[trigger] artifacts@[a],
                        artifacts_of_crash(self.artifacts@.take(k as int), crash_id)[a],
                    ),
            decreases n_artifacts - k,
        {
            proof {
                reveal(Seq::filter);
                assert(self.artifacts@.take(k + 1).drop_last() =~= self.artifacts@.take(k as int));
            }
            let row: &ArtifactRow = &self.artifacts[k];
            if row.crash_id == crash_id {
                let content: Option<Vec<u8>> = match &row.content {
                    Some(bytes) => Some(vstd::slice::slice_to_vec(bytes.as_slice())),
                    None => None,
                };
                artifacts.push(
                    ArtifactData {
                        filename: row.filename.clone(),
                        full_path: row.full_path.clone(),
                        content,
                    },
                );
            }
            k = k + 1;
        }
        assert(self.artifacts@.take(n_artifacts as int) =~= self.artifacts@);

        let exit_code: Option<u32> = match crash.exit_code {
            Some(code) => Some(#[verifier::truncate] (code as u32)),
            None => None,
        };
        let data = CrashReportData {
            cmd: crash.cmd.clone(),
            pid: #[verifier::truncate] (process.pid as u32),
            tid: crash.tid,
            signal: crash.signal,
            si_code: crash.si_code,
            fault_addr: from_column(crash.fault_addr),
            exit_code,
            runtime: process.runtime.clone(),
            registers: crash.registers(),
            stack_frames,
            stack_dump,
            memory_maps,
            artifacts,
        };
        assert(report_of(data, self@, self@.crashes[i as int], self@.processes[j as int]));
        Ok(data)
    }

    /// Attaches an artifact to the oldest crash of the process
    /// `(pid, boottime)` and says whether it did. Without such a process or
    /// such a crash nothing changes.
    fn insert_artifact(
        &mut self,
        pid: u64,
        boottime: u64,
        filename: String,
        full_path: String,
        content: Option<&[u8]>,
    ) -> (attached: bool)
        requires
            old(self).wf(),
        ensures
            final(self).wf(),
            artifact_outcome(
                old(self)@,
                pid,
                boottime,
                filename,
                full_path,
                content,
                final(self)@,
                attached,
            ),
    {
        let ghost before = self@;
        let at: usize = match self.process_position(to_column(pid), to_column(boottime)) {
            Some(at) => at,
            None => {
                return false;
            },
        };
        let process_id: i64 = self.processes[at].id;
        proof {
            assert(before.processes[at as int].id == process_id);
            assert forall|other: i64| #[trigger]
                process_row_id(
                    before.processes,
                    column_of(pid),
                    column_of(boottime),
                    other,
                ) implies other == process_id by {
                let w = choose|w: int|
                    0 <= w < before.processes.len() && (#[trigger] before.processes[w]).pid
                        == column_of(pid) && before.processes[w].boottime == column_of(boottime)
                        && before.processes[w].id == other;
                if w < at {
                    assert(before.processes[w].pid == before.processes[at as int].pid);
                } else if at < w {
                    assert(before.processes[at as int].pid == before.processes[w].pid);
                }
            }
        }
        let n: usize = self.crashes.len();
        let mut i: usize = 0;
        while i < n && self.crashes[i].process_id != process_id
            invariant
                i <= n,
                n == self.crashes@.len(),
                forall|k: int|
                    0 <= k < i ==> (#[trigger] self.crashes@[k]).process_id != process_id,
            decreases n - i,
        {
            i = i + 1;
        }
        if i == n {
            return false;
        }
        let crash_id: i64 = self.crashes[i].id;
        let content: Option<Vec<u8>> = match content {
            Some(bytes) => Some(vstd::slice::slice_to_vec(bytes)),
            None => None,
        };
        self.artifacts.push(ArtifactRow { crash_id, process_id, filename, full_path, content });
        proof {
            let after = self@;
            assert(after.artifacts.drop_last() =~= before.artifacts);
            assert(first_crash(before.crashes, process_id, i as int));
            assert(process_row_id(
                before.processes,
                column_of(pid),
                column_of(boottime),
                process_id,
            ));
            assert forall|k: int| 0 <= k < after.artifacts.len() implies crash_of_process(
                after.crashes,
                (#[trigger] after.artifacts[k]).crash_id,
                after.artifacts[k].process_id,
            ) by {
                if k < before.artifacts.len() {
                    assert(before.artifacts[k] == after.artifacts[k]);
                } else {
                    assert(after.crashes[i as int].id == crash_id);
                }
            }
            assert(after.memory_maps == before.memory_maps);
            assert(after.processes == before.processes);
            assert(after.crashes == before.crashes);
            assert(after.stack_frames == before.stack_frames);
            assert(after.stack_dumps == before.stack_dumps);
        }
        true
    }

    /// Removes the process `(pid, boottime)` with everything that belongs to
    /// it: its memory map, its crashes, their frames, dumps and artifacts,
    /// and the process row. Without such a process nothing changes.
    fn cleanup_process(&mut self, pid: u32, boottime: u64)
        requires
            old(self).wf(),
        ensures
            final(self).wf(),
            cleanup_outcome(old(self)@, pid, boottime, final(self)@),
    {
        let ghost before = self@;
        let at: usize = match self.process_position(pid as i64, to_column(boottime)) {
            Some(at) => at,
            None => {
                return ;
            },
        };
        let process_id: i64 = self.processes[at].id;
        proof {
            assert(before.processes[at as int].id == process_id);
            assert(process_row_id(before.processes, pid as i64, column_of(boottime), process_id));
            assert(has_process(before.processes, pid as i64, column_of(boottime)));
            lemma_without_process_wf(before, process_id);
        }
        let mut dead: Vec<i64> = Vec::new();
        let n: usize = self.crashes.len();
        let mut i: usize = 0;
        while i < n
            invariant
                i <= n,
                n == self.crashes@.len(),
                dead@ == crash_ids_of(self.crashes@.take(i as int), process_id),
            decreases n - i,
        {
            assert(self.crashes@.take(i + 1).drop_last() =~= self.crashes@.take(i as int));
            if self.crashes[i].process_id == process_id {
                dead.push(self.crashes[i].id);
            }
            i = i + 1;
        }
        assert(self.crashes@.take(n as int) =~= self.crashes@);
        delete_frames(&mut self.stack_frames, &dead);
        delete_dumps(&mut self.stack_dumps, &dead);
        delete_artifacts(&mut self.artifacts, process_id);
        delete_crashes(&mut self.crashes, process_id);
        delete_maps(&mut self.memory_maps, process_id);
        delete_process_row(&mut self.processes, process_id);
        assert(self@ == without_process(before, process_id));
    }
}

/// The crash store.
pub struct CrashDb {
    store: Store,
}

impl View for CrashDb {
    type V = Tables;

    /// The six tables and the next ids.
    closed spec fn view(&self) -> Tables {
        self.store@
    }
}

impl CrashDb {
    /// The invariant of the store holds of its contents.
    #[verifier::type_invariant]
    spec fn valid(self) -> bool {
        self.store@.wf()
    }

    /// A store with no rows.
    pub fn new() -> (db: CrashDb)
        ensures
            db@ == Tables::empty(),
            db@.wf(),
    {
        CrashDb { store: Store::new() }
    }

    /// A store with no rows whose first process row and first crash row get
    /// the ids given, or 1 where an id given is below 1: a store that goes
    /// on where the row ids of another left off.
    pub fn with_first_ids(first_process_id: i64, first_crash_id: i64) -> (db: CrashDb)
        ensures
            db@.wf(),
            db@ == (Tables {
                next_process_id: if first_process_id < 1 {
                    1
                } else {
                    first_process_id
                },
                next_crash_id: if first_crash_id < 1 {
                    1
                } else {
                    first_crash_id
                },
                ..Tables::empty()
            }),
    {
        CrashDb { store: Store::with_first_ids(first_process_id, first_crash_id) }
    }

    /// The rows of `processes`, in insertion order.
    pub fn processes(&self) -> (rows: &Vec<ProcessRow>)
        ensures
            rows@ == self@.processes,
            self@.wf(),
    {
        proof {
            use_type_invariant(self);
        }
        self.store.processes()
    }

    /// The rows of `memory_maps`, in insertion order.
    pub fn memory_maps(&self) -> (rows: &Vec<MapRow>)
        ensures
            rows@ == self@.memory_maps,
            self@.wf(),
    {
        proof {
            use_type_invariant(self);
        }
        self.store.memory_maps()
    }

    /// The rows of `crashes`, in insertion order.
    pub fn crashes(&self) -> (rows: &Vec<CrashRow>)
        ensures
            rows@ == self@.crashes,
            self@.wf(),
    {
        proof {
            use_type_invariant(self);
        }
        self.store.crashes()
    }

    /// The rows of `stack_frames`, in insertion order.
    pub fn stack_frames(&self) -> (rows: &Vec<FrameRow>)
        ensures
            rows@ == self@.stack_frames,
            self@.wf(),
    {
        proof {
            use_type_invariant(self);
        }
        self.store.stack_frames()
    }

    /// The rows of `stack_dumps`, in insertion order.
    pub fn stack_dumps(&self) -> (rows: &Vec<DumpRow>)
        ensures
            rows@ == self@.stack_dumps,
            self@.wf(),
    {
        proof {
            use_type_invariant(self);
        }
        self.store.stack_dumps()
    }

    /// The rows of `artifacts`, in insertion order.
    pub fn artifacts(&self) -> (rows: &Vec<ArtifactRow>)
        ensures
            rows@ == self@.artifacts,
            self@.wf(),
    {
        proof {
            use_type_invariant(self);
        }
        self.store.artifacts()
    }

    /// The id of the row of the process `(pid, boottime)`, if there is one.
    pub fn process_id(&self, pid: u32, boottime: u64) -> (r: Option<i64>)
        ensures
            r is Some <==> has_process(self@.processes, pid as i64, column_of(boottime)),
            r is Some ==> process_row_id(
                self@.processes,
                pid as i64,
                column_of(boottime),
                r->0,
            ),
            self@.wf(),
    {
        proof {
            use_type_invariant(self);
        }
        self.store.process_id(pid, boottime)
    }

    /// Stores the process `info`: a new row, or new values in the row that
    /// the process already has, and its memory map in place of the one stored
    /// before. Returns the id of the row.
    pub fn insert_process(&mut self, info: &ProcessInfo) -> (r: Result<i64, StoreError>)
        ensures
            old(self)@.wf(),
            final(self)@.wf(),
            process_outcome(old(self)@, *info, final(self)@, r),
    {
        proof {
            use_type_invariant(&*self);
        }
        let mut store = Store::new();
        core::mem::swap(&mut store, &mut self.store);
        let r = store.insert_process(info);
        self.store = store;
        r
    }

    /// Stores the pending crash of the signal record `crash` with the frames
    /// of its user stack and its raw stack dump, under the process row of
    /// `(crash.pid, crash.boottime)`. Without such a row nothing is stored
    /// and `None` is returned.
    pub fn insert_crash(
        &mut self,
        crash: &SignalDeliverEvent,
        stack_trace: Option<&Vec<u64>>,
        stack_dump: Option<&StackDump>,
    ) -> (r: Result<Option<i64>, StoreError>)
        ensures
            old(self)@.wf(),
            final(self)@.wf(),
            crash_outcome(old(self)@, *crash, stack_trace, stack_dump, final(self)@, r),
    {
        proof {
            use_type_invariant(&*self);
        }
        let mut store = Store::new();
        core::mem::swap(&mut store, &mut self.store);
        let r = store.insert_crash(crash, stack_trace, stack_dump);
        self.store = store;
        r
    }

    /// Completes the pending crash of the process `(pid, boottime)` with its
    /// exit code and returns the id of the crash. Where the process has
    /// several pending crashes, the oldest is completed. Without such a
    /// process or such a crash nothing changes and `None` is returned.
    pub fn complete_crash(&mut self, pid: u32, boottime: u64, exit_code: u32) -> (r: Option<i64>)
        ensures
            old(self)@.wf(),
            final(self)@.wf(),
            completion_outcome(old(self)@, pid, boottime, exit_code, final(self)@, r),
    {
        proof {
            use_type_invariant(&*self);
        }
        let mut store = Store::new();
        core::mem::swap(&mut store, &mut self.store);
        let r = store.complete_crash(pid, boottime, exit_code);
        self.store = store;
        r
    }

    /// Attaches an artifact to the oldest crash of the process
    /// `(pid, boottime)` and says whether it did. Without such a process or
    /// such a crash nothing changes.
    pub fn insert_artifact(
        &mut self,
        pid: u64,
        boottime: u64,
        filename: String,
        full_path: String,
        content: Option<&[u8]>,
    ) -> (attached: bool)
        ensures
            old(self)@.wf(),
            final(self)@.wf(),
            artifact_outcome(
                old(self)@,
                pid,
                boottime,
                filename,
                full_path,
                content,
                final(self)@,
                attached,
            ),
    {
        proof {
            use_type_invariant(&*self);
        }
        let mut store = Store::new();
        core::mem::swap(&mut store, &mut self.store);
        let attached = store.insert_artifact(pid, boottime, filename, full_path, content);
        self.store = store;
        attached
    }

    /// Everything the renderer needs of the crash with the id `crash_id`:
    /// the crash row and the row of its process, its frames in order, its
    /// dump cut to its declared length, the memory map of the process and the
    /// artifacts of the crash.
    pub fn get_crash_report_data(&self, crash_id: i64) -> (r: Result<CrashReportData, StoreError>)
        ensures
            self@.wf(),
            r is Err <==> !has_crash_id(self@.crashes, crash_id),
            r is Err ==> r->Err_0 == StoreError::CrashNotFound,
            r is Ok ==> report_data_of(r->Ok_0, self@, crash_id),
    {
        proof {
            use_type_invariant(self);
        }
        self.store.get_crash_report_data(crash_id)
    }

    /// Removes the process `(pid, boottime)` with everything that belongs to
    /// it: its memory map, its crashes, their frames, dumps and artifacts,
    /// and the process row. Without such a process nothing changes.
    pub fn cleanup_process(&mut self, pid: u32, boottime: u64)
        ensures
            old(self)@.wf(),
            final(self)@.wf(),
            cleanup_outcome(old(self)@, pid, boottime, final(self)@),
    {
        proof {
            use_type_invariant(&*self);
        }
        let mut store = Store::new();
        core::mem::swap(&mut store, &mut self.store);
        store.cleanup_process(pid, boottime);
        self.store = store;
    }
}

/// Whether a status is `Pending`.
fn is_pending(status: &CrashStatus) -> (r: bool)
    ensures
        r == (*status == CrashStatus::Pending),
{
    match status {
        CrashStatus::Pending => true,
        CrashStatus::Complete => false,
    }
}

} // verus!
