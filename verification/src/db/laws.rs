//! What holds of the crash store across its operations.

use crate::common::{SignalDeliverEvent, StackDump};
use crate::db::rows::{
    column_of, frame_rows, lemma_column_round_trip, CrashRow, CrashStatus, DumpRow, FrameRow,
    ProcessRow,
};
use crate::db::rows::MapRow;
use crate::db::tables::{
    completed_row, completion_outcome, crash_outcome, dump_of_crash, first_pending,
    frames_of_crash, frames_or_none, has_crash_id, has_pending, map_rows, maps_of_process,
    maps_without, process_outcome, process_row_id, report_of, without_process, Tables,
};
use crate::db::{CrashReportData, Registers, StoreError};
use crate::seqs::{lemma_filter_member, lemma_filter_order};
use crate::state::map::ProcessInfo;
use vstd::prelude::*;

verus! {

/// No process has two pending crashes.
pub open spec fn at_most_one_pending(t: Tables) -> bool {
    forall|i: int, j: int|
        0 <= i < j < t.crashes.len() ==> !((#[trigger] t.crashes[i]).process_id == (
        #[trigger] t.crashes[j]).process_id && t.crashes[i].status == CrashStatus::Pending
            && t.crashes[j].status == CrashStatus::Pending)
}

/// The frames of a crash in two tables put one after the other are its
/// frames in the first followed by its frames in the second.
pub proof fn lemma_frames_of_crash_add(a: Seq<FrameRow>, b: Seq<FrameRow>, crash_id: i64)
    ensures
        frames_of_crash(a + b, crash_id) == frames_of_crash(a, crash_id) + frames_of_crash(
            b,
            crash_id,
        ),
    decreases b.len(),
{
    if b.len() == 0 {
        assert(a + b =~= a);
        assert(frames_of_crash(a, crash_id) + frames_of_crash(b, crash_id) =~= frames_of_crash(
            a,
            crash_id,
        ));
    } else {
        lemma_frames_of_crash_add(a, b.drop_last(), crash_id);
        assert((a + b).drop_last() =~= a + b.drop_last());
        assert(frames_of_crash(a + b, crash_id) =~= frames_of_crash(a, crash_id)
            + frames_of_crash(b, crash_id));
    }
}

/// A table without a row of a crash holds no frame of it.
pub proof fn lemma_frames_of_crash_none(rows: Seq<FrameRow>, crash_id: i64)
    requires
        forall|i: int| 0 <= i < rows.len() ==> (#[trigger] rows[i]).crash_id != crash_id,
    ensures
        frames_of_crash(rows, crash_id) == Seq::<u64>::empty(),
    decreases rows.len(),
{
    if rows.len() > 0 {
        let t = rows.drop_last();
        assert forall|i: int| 0 <= i < t.len() implies (#[trigger] t[i]).crash_id != crash_id by {
            assert(rows[i] == t[i]);
        }
        lemma_frames_of_crash_none(t, crash_id);
        assert(rows[rows.len() - 1].crash_id != crash_id);
    }
}

/// The frames stored for a stack trace are read back as that trace.
pub proof fn lemma_frames_of_frame_rows(crash_id: i64, frames: Seq<u64>)
    ensures
        frames_of_crash(frame_rows(crash_id, frames), crash_id) == frames,
    decreases frames.len(),
{
    let rows = frame_rows(crash_id, frames);
    if frames.len() == 0 {
        assert(frames_of_crash(rows, crash_id) =~= frames);
    } else {
        lemma_frames_of_frame_rows(crash_id, frames.drop_last());
        assert(rows.drop_last() =~= frame_rows(crash_id, frames.drop_last()));
        lemma_column_round_trip(frames.last());
        assert(rows.last().ip == column_of(frames.last()));
        assert(frames_of_crash(rows, crash_id) =~= frames);
    }
}

/// A table without a row of a crash holds no dump of it.
pub proof fn lemma_dump_of_crash_none(rows: Seq<DumpRow>, crash_id: i64)
    requires
        forall|i: int| 0 <= i < rows.len() ==> (#[trigger] rows[i]).crash_id != crash_id,
    ensures
        dump_of_crash(rows, crash_id) is None,
    decreases rows.len(),
{
    if rows.len() > 0 {
        let t = rows.drop_last();
        assert forall|i: int| 0 <= i < t.len() implies (#[trigger] t[i]).crash_id != crash_id by {
            assert(rows[i] == t[i]);
        }
        lemma_dump_of_crash_none(t, crash_id);
        assert(rows[rows.len() - 1].crash_id != crash_id);
    }
}

/// What the report data hold of the dump that was stored with a crash: the
/// stack pointer and the buffer cut to the declared length.
pub open spec fn dump_read_back(read: Option<(u64, Vec<u8>)>, stored: Option<&StackDump>) -> bool {
    match stored {
        None => read is None,
        Some(dump) => match read {
            None => false,
            Some(d) => d.0 == dump.rsp && d.1@ == dump.captured(),
        },
    }
}

/// A crash that was just stored is read back as it was stored: the report
/// data of the new crash hold the register bank of the signal record, the
/// frames of the stack trace in order, and the dump cut to its declared
/// length.
pub proof fn lemma_insert_then_report(
    before: Tables,
    crash: SignalDeliverEvent,
    stack_trace: Option<&Vec<u64>>,
    stack_dump: Option<&StackDump>,
    after: Tables,
    id: i64,
    data: CrashReportData,
    crash_row: CrashRow,
    process_row: ProcessRow,
)
    requires
        before.wf(),
        crash_outcome(
            before,
            crash,
            stack_trace,
            stack_dump,
            after,
            Ok::<Option<i64>, StoreError>(Some(id)),
        ),
        after.crashes.contains(crash_row),
        crash_row.id == id,
        report_of(data, after, crash_row, process_row),
    ensures
        data.registers == Registers::of_event(crash),
        data.stack_frames@ == frames_or_none(stack_trace),
        dump_read_back(data.stack_dump, stack_dump),
        data.signal == crash.signal,
        data.si_code == crash.si_code,
        data.fault_addr == crash.fault_addr,
        data.tid == crash.tid,
        data.exit_code is None,
{
    let last = after.crashes.last();
    assert(last.id == id);
    let w = choose|w: int| 0 <= w < after.crashes.len() && after.crashes[w] == crash_row;
    if w < before.crashes.len() {
        assert(after.crashes.drop_last()[w] == before.crashes[w]);
        assert(before.crashes[w].id < before.next_crash_id);
    }
    assert(crash_row == last);
    lemma_column_round_trip(crash.fault_addr);
    lemma_column_round_trip(crash.rip);
    lemma_column_round_trip(crash.rsp);
    lemma_column_round_trip(crash.rbp);
    lemma_column_round_trip(crash.rax);
    lemma_column_round_trip(crash.rbx);
    lemma_column_round_trip(crash.rcx);
    lemma_column_round_trip(crash.rdx);
    lemma_column_round_trip(crash.rsi);
    lemma_column_round_trip(crash.rdi);
    lemma_column_round_trip(crash.r8);
    lemma_column_round_trip(crash.r9);
    lemma_column_round_trip(crash.r10);
    lemma_column_round_trip(crash.r11);
    lemma_column_round_trip(crash.r12);
    lemma_column_round_trip(crash.r13);
    lemma_column_round_trip(crash.r14);
    lemma_column_round_trip(crash.r15);
    lemma_column_round_trip(crash.rflags);
    assert forall|i: int| 0 <= i < before.stack_frames.len() implies (
    #[trigger] before.stack_frames[i]).crash_id != id by {
        let c = before.stack_frames[i].crash_id;
        assert(has_crash_id(before.crashes, c));
        let k = choose|k: int|
            0 <= k < before.crashes.len() && (#[trigger] before.crashes[k]).id == c;
        assert(before.crashes[k].id < before.next_crash_id);
    }
    assert forall|i: int| 0 <= i < before.stack_dumps.len() implies (
    #[trigger] before.stack_dumps[i]).crash_id != id by {
        let c = before.stack_dumps[i].crash_id;
        assert(has_crash_id(before.crashes, c));
        let k = choose|k: int|
            0 <= k < before.crashes.len() && (#[trigger] before.crashes[k]).id == c;
        assert(before.crashes[k].id < before.next_crash_id);
    }
    let frames = frames_or_none(stack_trace);
    lemma_frames_of_crash_add(before.stack_frames, frame_rows(id, frames), id);
    lemma_frames_of_crash_none(before.stack_frames, id);
    lemma_frames_of_frame_rows(id, frames);
    assert(Seq::<u64>::empty() + frames =~= frames);
    lemma_dump_of_crash_none(before.stack_dumps, id);
    match stack_dump {
        None => {},
        Some(dump) => {
            let row = after.stack_dumps.last();
            lemma_column_round_trip(dump.rsp);
            assert(dump_of_crash(after.stack_dumps, id) == Some(row));
            assert(row.captured() =~= dump.captured());
        },
    }
}

/// Storing a crash for a process that has no pending crash leaves no
/// process with two pending crashes.
pub proof fn lemma_pending_after_insert(
    before: Tables,
    crash: SignalDeliverEvent,
    stack_trace: Option<&Vec<u64>>,
    stack_dump: Option<&StackDump>,
    after: Tables,
    r: Result<Option<i64>, StoreError>,
)
    requires
        before.wf(),
        at_most_one_pending(before),
        crash_outcome(before, crash, stack_trace, stack_dump, after, r),
        forall|p: i64| #[trigger]
            process_row_id(before.processes, crash.pid as i64, column_of(crash.boottime), p)
                ==> !has_pending(before.crashes, p),
    ensures
        at_most_one_pending(after),
{
    match r {
        Ok(Some(id)) => {
            let p = after.crashes.last().process_id;
            assert forall|i: int, j: int| 0 <= i < j < after.crashes.len() implies !((
            #[trigger] after.crashes[i]).process_id == (#[trigger] after.crashes[j]).process_id
                && after.crashes[i].status == CrashStatus::Pending && after.crashes[j].status
                == CrashStatus::Pending) by {
                assert(after.crashes.drop_last()[i] == before.crashes[i]);
                if j < before.crashes.len() {
                    assert(after.crashes.drop_last()[j] == before.crashes[j]);
                } else {
                    if before.crashes[i].process_id == p && before.crashes[i].status
                        == CrashStatus::Pending {
                        assert(has_pending(before.crashes, p));
                    }
                }
            }
        },
        _ => {},
    }
}

/// Completing a crash leaves no process with two pending crashes, and where
/// the process had one pending crash it has none afterwards.
pub proof fn lemma_pending_after_complete(
    before: Tables,
    pid: u32,
    boottime: u64,
    exit_code: u32,
    after: Tables,
    r: Option<i64>,
)
    requires
        before.wf(),
        at_most_one_pending(before),
        completion_outcome(before, pid, boottime, exit_code, after, r),
    ensures
        at_most_one_pending(after),
        forall|p: i64| #[trigger]
            process_row_id(before.processes, pid as i64, column_of(boottime), p) ==> !has_pending(
                after.crashes,
                p,
            ),
{
    match r {
        None => {},
        Some(id) => {
            let (p, i) = choose|p: i64, i: int|
                {
                    &&& process_row_id(before.processes, pid as i64, column_of(boottime), p)
                    &&& #[trigger] first_pending(before.crashes, p, i)
                    &&& before.crashes[i].id == id
                    &&& after.crashes == before.crashes.update(
                        i,
                        completed_row(before.crashes[i], exit_code),
                    )
                };
            assert forall|a: int, b: int| 0 <= a < b < after.crashes.len() implies !((
            #[trigger] after.crashes[a]).process_id == (#[trigger] after.crashes[b]).process_id
                && after.crashes[a].status == CrashStatus::Pending && after.crashes[b].status
                == CrashStatus::Pending) by {
                assert(before.crashes[a].process_id == after.crashes[a].process_id);
                assert(before.crashes[b].process_id == after.crashes[b].process_id);
            }
            assert forall|q: i64| #[trigger]
                process_row_id(before.processes, pid as i64, column_of(boottime), q) implies
                !has_pending(after.crashes, q) by {
                lemma_one_row_per_process(before, pid as i64, column_of(boottime), p, q);
                if has_pending(after.crashes, q) {
                    let k = choose|k: int|
                        0 <= k < after.crashes.len() && (#[trigger] after.crashes[k]).process_id
                            == q && after.crashes[k].status == CrashStatus::Pending;
                    assert(k != i);
                    assert(before.crashes[k] == after.crashes[k]);
                    if k < i {
                        assert(before.crashes[k].process_id == before.crashes[i].process_id);
                    } else {
                        assert(before.crashes[i].process_id == before.crashes[k].process_id);
                    }
                }
            }
        },
    }
}

/// A process has one row: two ids of rows of the same process are the same.
pub proof fn lemma_one_row_per_process(t: Tables, pid: i64, boottime: i64, a: i64, b: i64)
    requires
        t.wf(),
        process_row_id(t.processes, pid, boottime, a),
        process_row_id(t.processes, pid, boottime, b),
    ensures
        a == b,
{
    let i = choose|i: int|
        0 <= i < t.processes.len() && (#[trigger] t.processes[i]).pid == pid
            && t.processes[i].boottime == boottime && t.processes[i].id == a;
    let j = choose|j: int|
        0 <= j < t.processes.len() && (#[trigger] t.processes[j]).pid == pid
            && t.processes[j].boottime == boottime && t.processes[j].id == b;
    if i < j {
        assert(t.processes[i].pid == t.processes[j].pid);
    } else if j < i {
        assert(t.processes[j].pid == t.processes[i].pid);
    }
}

/// A pid that is used again after its process is gone stands for another
/// process: the rows of two processes with the same pid and different start
/// times have different ids, so a crash of one is no crash of the other.
pub proof fn lemma_pid_reuse_keeps_processes_apart(
    t: Tables,
    pid: u32,
    first_boottime: u64,
    second_boottime: u64,
    first_id: i64,
    second_id: i64,
)
    requires
        t.wf(),
        first_boottime != second_boottime,
        process_row_id(t.processes, pid as i64, column_of(first_boottime), first_id),
        process_row_id(t.processes, pid as i64, column_of(second_boottime), second_id),
    ensures
        first_id != second_id,
{
    lemma_column_round_trip(first_boottime);
    lemma_column_round_trip(second_boottime);
    let i = choose|i: int|
        0 <= i < t.processes.len() && (#[trigger] t.processes[i]).pid == pid as i64
            && t.processes[i].boottime == column_of(first_boottime) && t.processes[i].id
            == first_id;
    let j = choose|j: int|
        0 <= j < t.processes.len() && (#[trigger] t.processes[j]).pid == pid as i64
            && t.processes[j].boottime == column_of(second_boottime) && t.processes[j].id
            == second_id;
    assert(i != j);
    if i < j {
        assert(t.processes[i].id < t.processes[j].id);
    } else {
        assert(t.processes[j].id < t.processes[i].id);
    }
}

/// Removing a process leaves no process with two pending crashes, and no
/// crash of the removed process.
pub proof fn lemma_pending_after_cleanup(before: Tables, process_id: i64)
    requires
        before.wf(),
        at_most_one_pending(before),
    ensures
        at_most_one_pending(without_process(before, process_id)),
        forall|i: int|
            0 <= i < without_process(before, process_id).crashes.len() ==> (
            #[trigger] without_process(before, process_id).crashes[i]).process_id != process_id,
{
    let after = without_process(before, process_id);
    let keep = |r: CrashRow| r.process_id != process_id;
    assert(after.crashes == before.crashes.filter(keep));
    assert forall|i: int| 0 <= i < after.crashes.len() implies (
    #[trigger] after.crashes[i]).process_id != process_id by {
        lemma_filter_member(before.crashes, keep, i);
    }
    assert forall|i: int, j: int| 0 <= i < j < after.crashes.len() implies !((
    #[trigger] after.crashes[i]).process_id == (#[trigger] after.crashes[j]).process_id
        && after.crashes[i].status == CrashStatus::Pending && after.crashes[j].status
        == CrashStatus::Pending) by {
        lemma_filter_order(before.crashes, keep, i, j);
        let (a, b) = choose|a: int, b: int|
            0 <= a < b < before.crashes.len() && #[trigger] before.crashes[a] == after.crashes[i]
                && #[trigger] before.crashes[b] == after.crashes[j];
        assert(before.crashes[a].process_id == after.crashes[i].process_id);
        assert(before.crashes[b].process_id == after.crashes[j].process_id);
    }
}

/// A crash that is complete has its exit code.
pub proof fn lemma_complete_has_exit_code(t: Tables, i: int)
    requires
        t.wf(),
        0 <= i < t.crashes.len(),
        t.crashes[i].status == CrashStatus::Complete,
    ensures
        t.crashes[i].exit_code is Some,
{
}

/// Where the exit code of a process names the signal of its pending crash
/// in its low 7 bits, the completed crash holds an exit code whose low 7
/// bits are the signal of the crash.
pub proof fn lemma_completed_crash_matches_signal(
    before: Tables,
    pid: u32,
    boottime: u64,
    exit_code: u32,
    after: Tables,
    id: i64,
    i: int,
)
    requires
        before.wf(),
        completion_outcome(before, pid, boottime, exit_code, after, Some(id)),
        0 <= i < after.crashes.len(),
        after.crashes[i].id == id,
        (exit_code & 0x7f) as int == before.crashes[i].signal as int,
    ensures
        after.crashes[i].status == CrashStatus::Complete,
        after.crashes[i].exit_code == Some(exit_code as i64),
        after.crashes[i].signal == before.crashes[i].signal,
        (after.crashes[i].exit_code->0 & 0x7f) as int == after.crashes[i].signal as int,
{
    let (p, k) = choose|p: i64, k: int|
        {
            &&& process_row_id(before.processes, pid as i64, column_of(boottime), p)
            &&& #[trigger] first_pending(before.crashes, p, k)
            &&& before.crashes[k].id == id
            &&& after.crashes == before.crashes.update(
                k,
                completed_row(before.crashes[k], exit_code),
            )
        };
    assert(before.crashes[i].id == after.crashes[i].id);
    if i < k {
        assert(before.crashes[i].id < before.crashes[k].id);
    } else if k < i {
        assert(before.crashes[k].id < before.crashes[i].id);
    }
    assert(i == k);
    let wide: i64 = exit_code as i64;
    assert((wide & 0x7f) as int == (exit_code & 0x7f) as int) by (bit_vector)
        requires
            wide == exit_code as i64,
    ;
}

/// The lines of a process in two tables put one after the other are its
/// lines in the first followed by its lines in the second.
pub proof fn lemma_maps_of_process_add(a: Seq<MapRow>, b: Seq<MapRow>, process_id: i64)
    ensures
        maps_of_process(a + b, process_id) == maps_of_process(a, process_id) + maps_of_process(
            b,
            process_id,
        ),
    decreases b.len(),
{
    if b.len() == 0 {
        assert(a + b =~= a);
        assert(maps_of_process(a, process_id) + maps_of_process(b, process_id)
            =~= maps_of_process(a, process_id));
    } else {
        lemma_maps_of_process_add(a, b.drop_last(), process_id);
        assert((a + b).drop_last() =~= a + b.drop_last());
        assert(maps_of_process(a + b, process_id) =~= maps_of_process(a, process_id)
            + maps_of_process(b, process_id));
    }
}

/// A table without a row of a process holds no line of its memory map.
pub proof fn lemma_maps_of_process_none(rows: Seq<MapRow>, process_id: i64)
    requires
        forall|i: int| 0 <= i < rows.len() ==> (#[trigger] rows[i]).process_id != process_id,
    ensures
        maps_of_process(rows, process_id) == Seq::<String>::empty(),
    decreases rows.len(),
{
    if rows.len() > 0 {
        let t = rows.drop_last();
        assert forall|i: int| 0 <= i < t.len() implies (#[trigger] t[i]).process_id
            != process_id by {
            assert(rows[i] == t[i]);
        }
        lemma_maps_of_process_none(t, process_id);
        assert(rows[rows.len() - 1].process_id != process_id);
    }
}

/// The rows stored for a memory map are read back as its lines, in order.
pub proof fn lemma_maps_of_map_rows(process_id: i64, lines: Seq<String>)
    ensures
        maps_of_process(map_rows(process_id, lines), process_id) == lines,
    decreases lines.len(),
{
    let rows = map_rows(process_id, lines);
    if lines.len() == 0 {
        assert(maps_of_process(rows, process_id) =~= lines);
    } else {
        lemma_maps_of_map_rows(process_id, lines.drop_last());
        assert(rows.drop_last() =~= map_rows(process_id, lines.drop_last()));
        assert(rows.last().content == lines.last());
        assert(maps_of_process(rows, process_id) =~= lines);
    }
}

/// The memory map that was stored with a process is the memory map that a
/// report on a crash of the process shows: the same lines in the same order.
pub proof fn lemma_stored_maps_are_read_back(
    before: Tables,
    info: ProcessInfo,
    after: Tables,
    id: i64,
)
    requires
        process_outcome(before, info, after, Ok::<i64, StoreError>(id)),
    ensures
        maps_of_process(after.memory_maps, id) == info.maps@,
{
    let kept = maps_without(before.memory_maps, id);
    assert forall|i: int| 0 <= i < kept.len() implies (#[trigger] kept[i]).process_id != id by {
        lemma_filter_member(before.memory_maps, |r: MapRow| r.process_id != id, i);
    }
    lemma_maps_of_process_none(kept, id);
    lemma_maps_of_map_rows(id, info.maps@);
    lemma_maps_of_process_add(kept, map_rows(id, info.maps@), id);
    assert(Seq::<String>::empty() + info.maps@ =~= info.maps@);
}

} // verus!
