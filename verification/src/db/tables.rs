//! The contents of the crash store as a value: its tables, their invariant,
//! what is read from them, and what each operation of the store makes of
//! them.

use crate::common::{SignalDeliverEvent, StackDump};
use crate::db::rows::{
    column_of, crash_row_of, frame_rows, process_row_of, registers_of_row, value_of,
    ArtifactRow, CrashRow, CrashStatus, DumpRow, FrameRow, MapRow, ProcessRow,
};
use crate::db::{ArtifactData, CrashReportData, StoreError};
use crate::seqs::{lemma_filter_keeps, lemma_filter_member, lemma_filter_order};
use crate::state::map::ProcessInfo;
use vstd::prelude::*;

verus! {

/// The contents of the store: its six tables in insertion order, and the ids
/// that the next new process row and crash row get.
pub struct Tables {
    pub processes: Seq<ProcessRow>,
    pub memory_maps: Seq<MapRow>,
    pub crashes: Seq<CrashRow>,
    pub stack_frames: Seq<FrameRow>,
    pub stack_dumps: Seq<DumpRow>,
    pub artifacts: Seq<ArtifactRow>,
    pub next_process_id: i64,
    pub next_crash_id: i64,
}

impl Tables {
    /// The store with no rows.
    pub open spec fn empty() -> Tables {
        Tables {
            processes: Seq::empty(),
            memory_maps: Seq::empty(),
            crashes: Seq::empty(),
            stack_frames: Seq::empty(),
            stack_dumps: Seq::empty(),
            artifacts: Seq::empty(),
            next_process_id: 1,
            next_crash_id: 1,
        }
    }

    /// The row ids are positive, grow with the order of insertion and lie
    /// below the next id to be given, and a process has one row.
    pub open spec fn ids_wf(self) -> bool {
        &&& 1 <= self.next_process_id
        &&& 1 <= self.next_crash_id
        &&& forall|i: int|
            0 <= i < self.processes.len() ==> 1 <= (#[trigger] self.processes[i]).id
                < self.next_process_id
        &&& forall|i: int, j: int|
            0 <= i < j < self.processes.len() ==> (#[trigger] self.processes[i]).id < (
            #[trigger] self.processes[j]).id
        &&& forall|i: int, j: int|
            0 <= i < j < self.processes.len() ==> !((#[trigger] self.processes[i]).pid == (
            #[trigger] self.processes[j]).pid && self.processes[i].boottime
                == self.processes[j].boottime)
        &&& forall|i: int|
            0 <= i < self.crashes.len() ==> 1 <= (#[trigger] self.crashes[i]).id
                < self.next_crash_id
        &&& forall|i: int, j: int|
            0 <= i < j < self.crashes.len() ==> (#[trigger] self.crashes[i]).id < (
            #[trigger] self.crashes[j]).id
    }

    /// Every row refers to rows that exist: a crash and a line of a memory
    /// map to their process, a frame and a dump to their crash, an artifact
    /// to a crash and to the process of that crash. A crash has at most one
    /// dump.
    pub open spec fn references_wf(self) -> bool {
        &&& forall|i: int|
            0 <= i < self.crashes.len() ==> has_process_id(
                self.processes,
                (#[trigger] self.crashes[i]).process_id,
            )
        &&& forall|i: int|
            0 <= i < self.memory_maps.len() ==> has_process_id(
                self.processes,
                (#[trigger] self.memory_maps[i]).process_id,
            )
        &&& forall|i: int|
            0 <= i < self.stack_frames.len() ==> has_crash_id(
                self.crashes,
                (#[trigger] self.stack_frames[i]).crash_id,
            )
        &&& forall|i: int|
            0 <= i < self.stack_dumps.len() ==> has_crash_id(
                self.crashes,
                (#[trigger] self.stack_dumps[i]).crash_id,
            )
        &&& forall|i: int, j: int|
            0 <= i < j < self.stack_dumps.len() ==> (#[trigger] self.stack_dumps[i]).crash_id != (
            #[trigger] self.stack_dumps[j]).crash_id
        &&& forall|i: int|
            0 <= i < self.artifacts.len() ==> crash_of_process(
                self.crashes,
                (#[trigger] self.artifacts[i]).crash_id,
                self.artifacts[i].process_id,
            )
    }

    /// A crash that is complete has its exit code.
    pub open spec fn status_wf(self) -> bool {
        forall|i: int|
            0 <= i < self.crashes.len() ==> ((#[trigger] self.crashes[i]).status
                == CrashStatus::Complete ==> self.crashes[i].exit_code is Some)
    }

    /// The invariant of the store.
    pub open spec fn wf(self) -> bool {
        &&& self.ids_wf()
        &&& self.references_wf()
        &&& self.status_wf()
    }
}

/// Whether `ps` holds a row for the process `(pid, boottime)`.
pub open spec fn has_process(ps: Seq<ProcessRow>, pid: i64, boottime: i64) -> bool {
    exists|i: int| 0 <= i < ps.len() && (#[trigger] ps[i]).pid == pid && ps[i].boottime == boottime
}

/// Whether `ps` holds the row with the id `id` for the process
/// `(pid, boottime)`.
pub open spec fn process_row_id(ps: Seq<ProcessRow>, pid: i64, boottime: i64, id: i64) -> bool {
    exists|i: int|
        0 <= i < ps.len() && (#[trigger] ps[i]).pid == pid && ps[i].boottime == boottime
            && ps[i].id == id
}

/// Whether `ps` holds a row with the id `id`.
pub open spec fn has_process_id(ps: Seq<ProcessRow>, id: i64) -> bool {
    exists|i: int| 0 <= i < ps.len() && (#[trigger] ps[i]).id == id
}

/// Whether `cs` holds a crash with the id `id`.
pub open spec fn has_crash_id(cs: Seq<CrashRow>, id: i64) -> bool {
    exists|i: int| 0 <= i < cs.len() && (#[trigger] cs[i]).id == id
}

/// Whether `cs` holds a crash with the id `crash_id` that belongs to the
/// process row `process_id`.
pub open spec fn crash_of_process(cs: Seq<CrashRow>, crash_id: i64, process_id: i64) -> bool {
    exists|i: int|
        0 <= i < cs.len() && (#[trigger] cs[i]).id == crash_id && cs[i].process_id == process_id
}

/// Whether `cs` holds a pending crash of the process row `process_id`.
pub open spec fn has_pending(cs: Seq<CrashRow>, process_id: i64) -> bool {
    exists|i: int|
        0 <= i < cs.len() && (#[trigger] cs[i]).process_id == process_id && cs[i].status
            == CrashStatus::Pending
}

/// Whether the crash at `i` is the oldest pending crash of the process row
/// `process_id`.
pub open spec fn first_pending(cs: Seq<CrashRow>, process_id: i64, i: int) -> bool {
    &&& 0 <= i < cs.len()
    &&& cs[i].process_id == process_id
    &&& cs[i].status == CrashStatus::Pending
    &&& forall|k: int|
        0 <= k < i ==> !((#[trigger] cs[k]).process_id == process_id && cs[k].status
            == CrashStatus::Pending)
}

/// Where the oldest crash of the process row `process_id` stands in `cs`.
pub open spec fn first_crash(cs: Seq<CrashRow>, process_id: i64, i: int) -> bool {
    &&& 0 <= i < cs.len()
    &&& cs[i].process_id == process_id
    &&& forall|k: int| 0 <= k < i ==> (#[trigger] cs[k]).process_id != process_id
}

/// The rows of `memory_maps` for the lines of the memory map of the process
/// row `process_id`.
pub open spec fn map_rows(process_id: i64, lines: Seq<String>) -> Seq<MapRow> {
    Seq::new(
        lines.len(),
        |i: int| MapRow { process_id, line_num: i as i64, content: lines[i] },
    )
}

/// The rows of `memory_maps` that do not belong to the process row
/// `process_id`.
pub open spec fn maps_without(rows: Seq<MapRow>, process_id: i64) -> Seq<MapRow> {
    rows.filter(|r: MapRow| r.process_id != process_id)
}

/// The frames of an optional stack trace; none where there is no trace.
pub open spec fn frames_or_none(stack_trace: Option<&Vec<u64>>) -> Seq<u64> {
    match stack_trace {
        Some(trace) => trace@,
        None => Seq::empty(),
    }
}

/// The row `row` once its crash is complete with the exit code `exit_code`.
pub open spec fn completed_row(row: CrashRow, exit_code: u32) -> CrashRow {
    CrashRow { status: CrashStatus::Complete, exit_code: Some(exit_code as i64), ..row }
}

/// The instruction pointers of the frames of the crash `crash_id`, in the
/// order of the table.
pub open spec fn frames_of_crash(rows: Seq<FrameRow>, crash_id: i64) -> Seq<u64>
    decreases rows.len(),
{
    if rows.len() == 0 {
        Seq::empty()
    } else if rows.last().crash_id == crash_id {
        frames_of_crash(rows.drop_last(), crash_id).push(value_of(rows.last().ip))
    } else {
        frames_of_crash(rows.drop_last(), crash_id)
    }
}

/// The lines of the memory map of the process row `process_id`, in the
/// order of the table.
pub open spec fn maps_of_process(rows: Seq<MapRow>, process_id: i64) -> Seq<String>
    decreases rows.len(),
{
    if rows.len() == 0 {
        Seq::empty()
    } else if rows.last().process_id == process_id {
        maps_of_process(rows.drop_last(), process_id).push(rows.last().content)
    } else {
        maps_of_process(rows.drop_last(), process_id)
    }
}

/// The oldest dump row of the crash `crash_id`, if there is one.
pub open spec fn dump_of_crash(rows: Seq<DumpRow>, crash_id: i64) -> Option<DumpRow>
    decreases rows.len(),
{
    if rows.len() == 0 {
        None
    } else if dump_of_crash(rows.drop_last(), crash_id) is Some {
        dump_of_crash(rows.drop_last(), crash_id)
    } else if rows.last().crash_id == crash_id {
        Some(rows.last())
    } else {
        None
    }
}

/// The artifact rows of the crash `crash_id`, in the order of the table.
pub open spec fn artifacts_of_crash(rows: Seq<ArtifactRow>, crash_id: i64) -> Seq<ArtifactRow> {
    rows.filter(|r: ArtifactRow| r.crash_id == crash_id)
}

/// The ids of the crashes of the process row `process_id`, in the order of
/// the table.
pub open spec fn crash_ids_of(cs: Seq<CrashRow>, process_id: i64) -> Seq<i64>
    decreases cs.len(),
{
    if cs.len() == 0 {
        Seq::empty()
    } else if cs.last().process_id == process_id {
        crash_ids_of(cs.drop_last(), process_id).push(cs.last().id)
    } else {
        crash_ids_of(cs.drop_last(), process_id)
    }
}

/// The ids of the crashes of a process are the ids of the crash rows that
/// belong to it.
pub proof fn lemma_crash_ids_of(cs: Seq<CrashRow>, process_id: i64, crash_id: i64)
    ensures
        crash_ids_of(cs, process_id).contains(crash_id) <==> crash_of_process(
            cs,
            crash_id,
            process_id,
        ),
    decreases cs.len(),
{
    if cs.len() > 0 {
        let t = cs.drop_last();
        lemma_crash_ids_of(t, process_id, crash_id);
        let ids = crash_ids_of(cs, process_id);
        let ids_t = crash_ids_of(t, process_id);
        if crash_of_process(cs, crash_id, process_id) {
            let w = choose|w: int|
                0 <= w < cs.len() && (#[trigger] cs[w]).id == crash_id && cs[w].process_id
                    == process_id;
            if w < t.len() {
                assert(t[w].id == crash_id && t[w].process_id == process_id);
                let k = choose|k: int| 0 <= k < ids_t.len() && ids_t[k] == crash_id;
                assert(ids[k] == crash_id);
            } else {
                assert(ids[ids.len() - 1] == crash_id);
            }
        }
        if ids.contains(crash_id) {
            let k = choose|k: int| 0 <= k < ids.len() && ids[k] == crash_id;
            if k < ids_t.len() {
                assert(ids_t[k] == crash_id);
                assert(ids_t.contains(crash_id));
                let w = choose|w: int|
                    0 <= w < t.len() && (#[trigger] t[w]).id == crash_id && t[w].process_id
                        == process_id;
                assert(cs[w].id == crash_id && cs[w].process_id == process_id);
            } else {
                assert(cs[cs.len() - 1].id == crash_id);
            }
        }
    }
}

/// Whether `dump` holds the stack pointer and the captured bytes of `row`.
pub open spec fn dump_matches(dump: Option<(u64, Vec<u8>)>, row: DumpRow) -> bool {
    match dump {
        Some(d) => d.0 == value_of(row.rsp) && d.1@ == row.captured(),
        None => false,
    }
}

/// What the report data of a crash hold of its artifact row.
pub open spec fn artifact_of(data: ArtifactData, row: ArtifactRow) -> bool {
    &&& data.filename == row.filename
    &&& data.full_path == row.full_path
    &&& match row.content {
        None => data.content is None,
        Some(bytes) => data.content is Some && data.content->0@ == bytes@,
    }
}

/// Whether `data` is the report data of the crash row `crash` of the process
/// row `process` in the store `t`.
pub open spec fn report_of(data: CrashReportData, t: Tables, crash: CrashRow, process: ProcessRow)
    -> bool {
    &&& data.cmd == crash.cmd
    &&& data.pid == process.pid as u32
    &&& data.tid == crash.tid
    &&& data.signal == crash.signal
    &&& data.si_code == crash.si_code
    &&& data.fault_addr == value_of(crash.fault_addr)
    &&& data.exit_code == match crash.exit_code {
        Some(code) => Some(code as u32),
        None => None,
    }
    &&& data.runtime == process.runtime
    &&& data.registers == registers_of_row(crash)
    &&& data.stack_frames@ == frames_of_crash(t.stack_frames, crash.id)
    &&& match dump_of_crash(t.stack_dumps, crash.id) {
        None => data.stack_dump is None,
        Some(row) => dump_matches(data.stack_dump, row),
    }
    &&& data.memory_maps@ == maps_of_process(t.memory_maps, process.id)
    &&& data.artifacts@.len() == artifacts_of_crash(t.artifacts, crash.id).len()
    &&& forall|k: int|
        0 <= k < data.artifacts@.len() ==> artifact_of(
            #[trigger] data.artifacts@[k],
            artifacts_of_crash(t.artifacts, crash.id)[k],
        )
}

/// Whether `data` is the report data of the crash with the id `crash_id` in
/// the store `t`.
pub open spec fn report_data_of(data: CrashReportData, t: Tables, crash_id: i64) -> bool {
    exists|i: int, j: int|
        {
            &&& 0 <= i < t.crashes.len()
            &&& 0 <= j < t.processes.len()
            &&& (#[trigger] t.crashes[i]).id == crash_id
            &&& (#[trigger] t.processes[j]).id == t.crashes[i].process_id
            &&& report_of(data, t, t.crashes[i], t.processes[j])
        }
}

/// What `insert_process` makes of the store `before` and returns.
pub open spec fn process_outcome(
    before: Tables,
    info: ProcessInfo,
    after: Tables,
    r: Result<i64, StoreError>,
) -> bool {
    let known = has_process(before.processes, info.pid as i64, column_of(info.boottime));
    match r {
        Err(e) => e == StoreError::Full && !known && before.next_process_id == i64::MAX && after
            == before,
        Ok(id) => {
            &&& known || before.next_process_id < i64::MAX
            &&& after.crashes == before.crashes
            &&& after.stack_frames == before.stack_frames
            &&& after.stack_dumps == before.stack_dumps
            &&& after.artifacts == before.artifacts
            &&& after.next_crash_id == before.next_crash_id
            &&& after.memory_maps == maps_without(before.memory_maps, id) + map_rows(
                id,
                info.maps@,
            )
            &&& if known {
                &&& after.next_process_id == before.next_process_id
                &&& after.processes.len() == before.processes.len()
                &&& forall|i: int|
                    0 <= i < before.processes.len() ==> if (#[trigger] before.processes[i]).pid
                        == info.pid as i64 && before.processes[i].boottime == column_of(
                        info.boottime,
                    ) {
                        before.processes[i].id == id && process_row_of(
                            after.processes[i],
                            id,
                            info,
                        )
                    } else {
                        after.processes[i] == before.processes[i]
                    }
            } else {
                &&& id == before.next_process_id
                &&& after.next_process_id == id + 1
                &&& after.processes.len() == before.processes.len() + 1
                &&& after.processes.drop_last() == before.processes
                &&& process_row_of(after.processes.last(), id, info)
            }
        },
    }
}

/// What `insert_crash` makes of the store `before` and returns.
pub open spec fn crash_outcome(
    before: Tables,
    crash: SignalDeliverEvent,
    stack_trace: Option<&Vec<u64>>,
    stack_dump: Option<&StackDump>,
    after: Tables,
    r: Result<Option<i64>, StoreError>,
) -> bool {
    let known = has_process(before.processes, crash.pid as i64, column_of(crash.boottime));
    match r {
        Err(e) => e == StoreError::Full && known && before.next_crash_id == i64::MAX && after
            == before,
        Ok(None) => !known && after == before,
        Ok(Some(id)) => {
            &&& known
            &&& id == before.next_crash_id
            &&& id < i64::MAX
            &&& after.next_crash_id == id + 1
            &&& after.next_process_id == before.next_process_id
            &&& after.processes == before.processes
            &&& after.memory_maps == before.memory_maps
            &&& after.artifacts == before.artifacts
            &&& after.crashes.len() == before.crashes.len() + 1
            &&& after.crashes.drop_last() == before.crashes
            &&& crash_row_of(after.crashes.last(), id, after.crashes.last().process_id, crash)
            &&& process_row_id(
                before.processes,
                crash.pid as i64,
                column_of(crash.boottime),
                after.crashes.last().process_id,
            )
            &&& after.stack_frames == before.stack_frames + frame_rows(
                id,
                frames_or_none(stack_trace),
            )
            &&& match stack_dump {
                None => after.stack_dumps == before.stack_dumps,
                Some(dump) => {
                    &&& after.stack_dumps.len() == before.stack_dumps.len() + 1
                    &&& after.stack_dumps.drop_last() == before.stack_dumps
                    &&& after.stack_dumps.last().crash_id == id
                    &&& after.stack_dumps.last().rsp == column_of(dump.rsp)
                    &&& after.stack_dumps.last().length == dump.len as i64
                    &&& after.stack_dumps.last().data@ == dump.data@
                },
            }
        },
    }
}

/// What `complete_crash` makes of the store `before` and returns.
pub open spec fn completion_outcome(
    before: Tables,
    pid: u32,
    boottime: u64,
    exit_code: u32,
    after: Tables,
    r: Option<i64>,
) -> bool {
    match r {
        None => {
            &&& after == before
            &&& forall|p: i64| #[trigger]
                process_row_id(before.processes, pid as i64, column_of(boottime), p)
                    ==> !has_pending(before.crashes, p)
        },
        Some(id) => {
            &&& after.processes == before.processes
            &&& after.memory_maps == before.memory_maps
            &&& after.stack_frames == before.stack_frames
            &&& after.stack_dumps == before.stack_dumps
            &&& after.artifacts == before.artifacts
            &&& after.next_process_id == before.next_process_id
            &&& after.next_crash_id == before.next_crash_id
            &&& after.crashes.len() == before.crashes.len()
            &&& exists|p: i64, i: int|
                {
                    &&& process_row_id(before.processes, pid as i64, column_of(boottime), p)
                    &&& #[trigger] first_pending(before.crashes, p, i)
                    &&& before.crashes[i].id == id
                    &&& after.crashes == before.crashes.update(
                        i,
                        completed_row(before.crashes[i], exit_code),
                    )
                }
        },
    }
}

/// What `insert_artifact` makes of the store `before` and returns.
pub open spec fn artifact_outcome(
    before: Tables,
    pid: u64,
    boottime: u64,
    filename: String,
    full_path: String,
    content: Option<&[u8]>,
    after: Tables,
    attached: bool,
) -> bool {
    if attached {
        &&& after.processes == before.processes
        &&& after.memory_maps == before.memory_maps
        &&& after.crashes == before.crashes
        &&& after.stack_frames == before.stack_frames
        &&& after.stack_dumps == before.stack_dumps
        &&& after.next_process_id == before.next_process_id
        &&& after.next_crash_id == before.next_crash_id
        &&& after.artifacts.len() == before.artifacts.len() + 1
        &&& after.artifacts.drop_last() == before.artifacts
        &&& after.artifacts.last().filename == filename
        &&& after.artifacts.last().full_path == full_path
        &&& match content {
            Some(bytes) => after.artifacts.last().content is Some
                && after.artifacts.last().content->0@ == bytes@,
            None => after.artifacts.last().content is None,
        }
        &&& process_row_id(
            before.processes,
            column_of(pid),
            column_of(boottime),
            after.artifacts.last().process_id,
        )
        &&& exists|i: int| #[trigger]
            first_crash(before.crashes, after.artifacts.last().process_id, i)
                && before.crashes[i].id == after.artifacts.last().crash_id
    } else {
        &&& after == before
        &&& forall|p: i64, i: int|
            process_row_id(before.processes, column_of(pid), column_of(boottime), p) ==> !(
            #[trigger] first_crash(before.crashes, p, i))
    }
}

/// The process rows but the one with the id `process_id`.
pub open spec fn processes_without(rows: Seq<ProcessRow>, process_id: i64) -> Seq<ProcessRow> {
    rows.filter(|r: ProcessRow| r.id != process_id)
}

/// The crash rows that do not belong to the process row `process_id`.
pub open spec fn crashes_without(rows: Seq<CrashRow>, process_id: i64) -> Seq<CrashRow> {
    rows.filter(|r: CrashRow| r.process_id != process_id)
}

/// The frame rows whose crash is none of `dead`.
pub open spec fn frames_without(rows: Seq<FrameRow>, dead: Seq<i64>) -> Seq<FrameRow> {
    rows.filter(|r: FrameRow| !dead.contains(r.crash_id))
}

/// The dump rows whose crash is none of `dead`.
pub open spec fn dumps_without(rows: Seq<DumpRow>, dead: Seq<i64>) -> Seq<DumpRow> {
    rows.filter(|r: DumpRow| !dead.contains(r.crash_id))
}

/// The artifact rows that do not belong to the process row `process_id`.
pub open spec fn artifacts_without(rows: Seq<ArtifactRow>, process_id: i64) -> Seq<ArtifactRow> {
    rows.filter(|r: ArtifactRow| r.process_id != process_id)
}

/// What `cleanup_process` leaves of the store `before` when it removes the
/// process row `process_id`: no row of that process, its crashes, their
/// frames and dumps, and every other row as it was.
pub open spec fn without_process(before: Tables, process_id: i64) -> Tables {
    let dead = crash_ids_of(before.crashes, process_id);
    Tables {
        processes: processes_without(before.processes, process_id),
        memory_maps: maps_without(before.memory_maps, process_id),
        crashes: crashes_without(before.crashes, process_id),
        stack_frames: frames_without(before.stack_frames, dead),
        stack_dumps: dumps_without(before.stack_dumps, dead),
        artifacts: artifacts_without(before.artifacts, process_id),
        next_process_id: before.next_process_id,
        next_crash_id: before.next_crash_id,
    }
}

/// What `cleanup_process` makes of the store `before`.
pub open spec fn cleanup_outcome(before: Tables, pid: u32, boottime: u64, after: Tables) -> bool {
    if has_process(before.processes, pid as i64, column_of(boottime)) {
        exists|p: i64| #[trigger]
            process_row_id(before.processes, pid as i64, column_of(boottime), p) && after
                == without_process(before, p)
    } else {
        after == before
    }
}

/// Removing a process with everything that belongs to it keeps the
/// invariant of the store.
pub proof fn lemma_without_process_wf(before: Tables, process_id: i64)
    requires
        before.wf(),
    ensures
        without_process(before, process_id).wf(),
{
    let after = without_process(before, process_id);
    let dead = crash_ids_of(before.crashes, process_id);
    let keep_p = |r: ProcessRow| r.id != process_id;
    let keep_m = |r: MapRow| r.process_id != process_id;
    let keep_c = |r: CrashRow| r.process_id != process_id;
    let keep_f = |r: FrameRow| !dead.contains(r.crash_id);
    let keep_d = |r: DumpRow| !dead.contains(r.crash_id);
    let keep_a = |r: ArtifactRow| r.process_id != process_id;
    assert(after.processes == before.processes.filter(keep_p));
    assert(after.memory_maps == before.memory_maps.filter(keep_m));
    assert(after.crashes == before.crashes.filter(keep_c));
    assert(after.stack_frames == before.stack_frames.filter(keep_f));
    assert(after.stack_dumps == before.stack_dumps.filter(keep_d));
    assert(after.artifacts == before.artifacts.filter(keep_a));
    // A process row other than the removed one is still there.
    assert forall|id: i64| id != process_id && has_process_id(before.processes, id) implies
        has_process_id(after.processes, id) by {
        let w = choose|w: int|
            0 <= w < before.processes.len() && (#[trigger] before.processes[w]).id == id;
        lemma_filter_keeps(before.processes, keep_p, w);
        let k = choose|k: int|
            0 <= k < after.processes.len() && after.processes[k] == before.processes[w];
        assert(after.processes[k].id == id);
    }
    // A crash of another process is still there.
    assert forall|c: i64, p: i64| p != process_id && crash_of_process(before.crashes, c, p) implies
        crash_of_process(after.crashes, c, p) by {
        let w = choose|w: int|
            0 <= w < before.crashes.len() && (#[trigger] before.crashes[w]).id == c
                && before.crashes[w].process_id == p;
        lemma_filter_keeps(before.crashes, keep_c, w);
        let k = choose|k: int|
            0 <= k < after.crashes.len() && after.crashes[k] == before.crashes[w];
        assert(after.crashes[k].id == c && after.crashes[k].process_id == p);
    }
    assert forall|c: i64| !dead.contains(c) && has_crash_id(before.crashes, c) implies has_crash_id(
        after.crashes,
        c,
    ) by {
        let w = choose|w: int|
            0 <= w < before.crashes.len() && (#[trigger] before.crashes[w]).id == c;
        lemma_crash_ids_of(before.crashes, process_id, c);
        if before.crashes[w].process_id == process_id {
            assert(crash_of_process(before.crashes, c, process_id));
        }
        assert(crash_of_process(before.crashes, c, before.crashes[w].process_id));
        assert(crash_of_process(after.crashes, c, before.crashes[w].process_id));
        let k = choose|k: int|
            0 <= k < after.crashes.len() && (#[trigger] after.crashes[k]).id == c
                && after.crashes[k].process_id == before.crashes[w].process_id;
        assert(after.crashes[k].id == c);
    }
    assert forall|i: int| 0 <= i < after.processes.len() implies 1 <= (
    #[trigger] after.processes[i]).id < after.next_process_id by {
        lemma_filter_member(before.processes, keep_p, i);
        let w = choose|w: int|
            0 <= w < before.processes.len() && before.processes[w] == after.processes[i];
        assert(before.processes[w].id == after.processes[i].id);
    }
    assert forall|i: int, j: int| 0 <= i < j < after.processes.len() implies (
    #[trigger] after.processes[i]).id < (#[trigger] after.processes[j]).id && !(
    after.processes[i].pid == after.processes[j].pid && after.processes[i].boottime
        == after.processes[j].boottime) by {
        lemma_filter_order(before.processes, keep_p, i, j);
        let (a, b) = choose|a: int, b: int|
            0 <= a < b < before.processes.len() && #[trigger] before.processes[a]
                == after.processes[i] && #[trigger] before.processes[b] == after.processes[j];
        assert(before.processes[a].id < before.processes[b].id);
    }
    assert forall|i: int| 0 <= i < after.crashes.len() implies 1 <= (
    #[trigger] after.crashes[i]).id < after.next_crash_id && has_process_id(
        after.processes,
        after.crashes[i].process_id,
    ) && (after.crashes[i].status == CrashStatus::Complete ==> after.crashes[i].exit_code
        is Some) by {
        lemma_filter_member(before.crashes, keep_c, i);
        let w = choose|w: int|
            0 <= w < before.crashes.len() && before.crashes[w] == after.crashes[i];
        assert(before.crashes[w].id == after.crashes[i].id);
        assert(has_process_id(before.processes, before.crashes[w].process_id));
    }
    assert forall|i: int, j: int| 0 <= i < j < after.crashes.len() implies (
    #[trigger] after.crashes[i]).id < (#[trigger] after.crashes[j]).id by {
        lemma_filter_order(before.crashes, keep_c, i, j);
        let (a, b) = choose|a: int, b: int|
            0 <= a < b < before.crashes.len() && #[trigger] before.crashes[a] == after.crashes[i]
                && #[trigger] before.crashes[b] == after.crashes[j];
        assert(before.crashes[a].id < before.crashes[b].id);
    }
    assert forall|i: int| 0 <= i < after.memory_maps.len() implies has_process_id(
        after.processes,
        (#[trigger] after.memory_maps[i]).process_id,
    ) by {
        lemma_filter_member(before.memory_maps, keep_m, i);
        let w = choose|w: int|
            0 <= w < before.memory_maps.len() && before.memory_maps[w] == after.memory_maps[i];
        assert(has_process_id(before.processes, before.memory_maps[w].process_id));
    }
    assert forall|i: int| 0 <= i < after.stack_frames.len() implies has_crash_id(
        after.crashes,
        (#[trigger] after.stack_frames[i]).crash_id,
    ) by {
        lemma_filter_member(before.stack_frames, keep_f, i);
        let w = choose|w: int|
            0 <= w < before.stack_frames.len() && before.stack_frames[w] == after.stack_frames[i];
        assert(has_crash_id(before.crashes, before.stack_frames[w].crash_id));
    }
    assert forall|i: int| 0 <= i < after.stack_dumps.len() implies has_crash_id(
        after.crashes,
        (#[trigger] after.stack_dumps[i]).crash_id,
    ) by {
        lemma_filter_member(before.stack_dumps, keep_d, i);
        let w = choose|w: int|
            0 <= w < before.stack_dumps.len() && before.stack_dumps[w] == after.stack_dumps[i];
        assert(has_crash_id(before.crashes, before.stack_dumps[w].crash_id));
    }
    assert forall|i: int, j: int| 0 <= i < j < after.stack_dumps.len() implies (
    #[trigger] after.stack_dumps[i]).crash_id != (#[trigger] after.stack_dumps[j]).crash_id by {
        lemma_filter_order(before.stack_dumps, keep_d, i, j);
        let (a, b) = choose|a: int, b: int|
            0 <= a < b < before.stack_dumps.len() && #[trigger] before.stack_dumps[a]
                == after.stack_dumps[i] && #[trigger] before.stack_dumps[b] == after.stack_dumps[j];
        assert(before.stack_dumps[a].crash_id != before.stack_dumps[b].crash_id);
    }
    assert forall|i: int| 0 <= i < after.artifacts.len() implies crash_of_process(
        after.crashes,
        (#[trigger] after.artifacts[i]).crash_id,
        after.artifacts[i].process_id,
    ) by {
        lemma_filter_member(before.artifacts, keep_a, i);
        let w = choose|w: int|
            0 <= w < before.artifacts.len() && before.artifacts[w] == after.artifacts[i];
        assert(crash_of_process(
            before.crashes,
            before.artifacts[w].crash_id,
            before.artifacts[w].process_id,
        ));
    }
}

} // verus!
