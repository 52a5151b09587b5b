//! The program on the signal tracepoint: on a crash signal, snapshots the
//! machine context of the faulting thread and a bounded copy of its stack.

use crate::bytes::{le_i32_at, read_i32_le};
use crate::common::{
    crash_signal, valid_dump_len, zeros, SignalDeliverEvent, StackDump, StackDumpKey,
    STACK_DUMP_SIZE,
};
use crate::db::Registers;
use crate::programs::side_map::{entry_value, lemma_with_entry_value, with_entry};
use crate::programs::{
    CaptureState, CaptureView, TaskInfo, READ_FAULT, SIGNAL_OFFSET, SI_CODE_OFFSET,
};
use vstd::prelude::*;

verus! {

/// The handles of the two stack traces of a task; -1 where a trace could
/// not be taken.
#[derive(Clone, Copy, Debug, PartialEq, Eq)]
pub struct StackIds {
    pub kernel_stack_id: i64,
    pub user_stack_id: i64,
}

/// How many bytes of a stack are captured where `readable` bytes can be
/// read from the stack pointer on: the largest of 16384, 8192, 4096 and 2048
/// that can be read in one piece, or nothing.
pub open spec fn capture_len(readable: int) -> u32 {
    if readable >= 16384 {
        16384
    } else if readable >= 8192 {
        8192
    } else if readable >= 4096 {
        4096
    } else if readable >= 2048 {
        2048
    } else {
        0
    }
}

/// Whether `dump` is the capture of the stack at `rsp` of which the bytes
/// `readable` can be read: the captured bytes first, zeros after them.
pub open spec fn is_capture(dump: StackDump, rsp: u64, readable: Seq<u8>) -> bool {
    let len = capture_len(readable.len() as int);
    &&& dump.rsp == rsp
    &&& dump.len == len
    &&& dump.data@ == readable.take(len as int) + zeros((STACK_DUMP_SIZE - len) as nat)
}

/// A capture has one of the lengths that a capture can have, and the
/// captured bytes lie within its buffer.
pub proof fn lemma_capture_len_valid(readable: int)
    ensures
        valid_dump_len(capture_len(readable) as int),
        capture_len(readable) <= STACK_DUMP_SIZE,
        capture_len(readable) <= readable || capture_len(readable) == 0,
{
}

/// Whether a read of `len` bytes from the stack pointer succeeds: reads are
/// all or nothing.
fn can_read(readable: &[u8], len: usize) -> (r: bool)
    ensures
        r == (len <= readable@.len()),
{
    len <= readable.len()
}

/// Captures the stack at `rsp`, of which the bytes `readable` can be read
/// from `rsp` on: tries 16384 bytes, then 8192, 4096 and 2048, and keeps the
/// first read that succeeds.
pub fn capture_stack(rsp: u64, readable: &[u8]) -> (dump: StackDump)
    ensures
        is_capture(dump, rsp, readable@),
        dump.wf(),
        dump.captured() == readable@.take(dump.len as int),
{
    let len: usize = if can_read(readable, 16384) {
        16384
    } else if can_read(readable, 8192) {
        8192
    } else if can_read(readable, 4096) {
        4096
    } else if can_read(readable, 2048) {
        2048
    } else {
        0
    };
    let mut data: [u8; STACK_DUMP_SIZE] = [0u8; 16384];
    let mut i: usize = 0;
    while i < len
        invariant
            i <= len <= readable@.len(),
            len <= STACK_DUMP_SIZE,
            forall|k: int| 0 <= k < i ==> data@[k] == readable@[k],
            forall|k: int| i <= k < STACK_DUMP_SIZE ==> data@[k] == 0,
        decreases len - i,
    {
        data[i] = readable[i];
        i = i + 1;
    }
    let dump = StackDump { rsp, len: len as u32, data };
    assert(dump.data@ =~= readable@.take(len as int) + zeros((STACK_DUMP_SIZE - len) as nat));
    assert(dump.captured() =~= readable@.take(len as int));
    dump
}

/// The signal record of a crash signal delivered to `task`.
pub open spec fn signal_event_of(
    task: TaskInfo,
    signal: i32,
    si_code: i32,
    regs: Registers,
    stacks: StackIds,
    now_ns: u64,
) -> SignalDeliverEvent {
    SignalDeliverEvent {
        pid: task.pid,
        tid: task.tid,
        cmd: task.comm,
        boottime: task.boottime,
        signal,
        si_code,
        fault_addr: task.fault_addr,
        timestamp_ns: now_ns,
        rip: regs.rip,
        rsp: regs.rsp,
        rbp: regs.rbp,
        rax: regs.rax,
        rbx: regs.rbx,
        rcx: regs.rcx,
        rdx: regs.rdx,
        rsi: regs.rsi,
        rdi: regs.rdi,
        r8: regs.r8,
        r9: regs.r9,
        r10: regs.r10,
        r11: regs.r11,
        r12: regs.r12,
        r13: regs.r13,
        r14: regs.r14,
        r15: regs.r15,
        rflags: regs.rflags,
        kernel_stack_id: stacks.kernel_stack_id,
        user_stack_id: stacks.user_stack_id,
    }
}

/// What the signal program makes of the shared state when it records the
/// crash signal `signal`: the signal record under the key of the task, and,
/// where the stack pointer is not 0, the capture of the stack under the same
/// key. The ring is not touched.
pub open spec fn recorded(
    before: CaptureView,
    task: TaskInfo,
    signal: i32,
    si_code: i32,
    regs: Registers,
    stacks: StackIds,
    now_ns: u64,
    readable: Seq<u8>,
    after: CaptureView,
) -> bool {
    &&& after.ring == before.ring
    &&& after.ring_capacity == before.ring_capacity
    &&& after.pending_signals == with_entry(
        before.pending_signals,
        task.spec_key(),
        signal_event_of(task, signal, si_code, regs, stacks, now_ns),
    )
    &&& if regs.rsp == 0 {
        after.stack_dumps == before.stack_dumps
    } else {
        exists|dump: StackDump| #[trigger]
            is_capture(dump, regs.rsp, readable) && after.stack_dumps == with_entry(
                before.stack_dumps,
                task.spec_key(),
                dump,
            )
    }
}

/// What the signal program makes of the shared state and returns, given the
/// record of the tracepoint.
pub open spec fn signal_outcome(
    before: CaptureView,
    record: Seq<u8>,
    task: TaskInfo,
    regs: Registers,
    stacks: StackIds,
    now_ns: u64,
    readable: Seq<u8>,
    after: CaptureView,
    r: Result<(), i64>,
) -> bool {
    if record.len() < SIGNAL_OFFSET + 4 {
        r == Err::<(), i64>(READ_FAULT) && after == before
    } else if !crash_signal(le_i32_at(record, SIGNAL_OFFSET as int) as int) {
        r is Ok && after == before
    } else if record.len() < SI_CODE_OFFSET + 4 {
        r == Err::<(), i64>(READ_FAULT) && after == before
    } else {
        r is Ok && recorded(
            before,
            task,
            le_i32_at(record, SIGNAL_OFFSET as int),
            le_i32_at(record, SI_CODE_OFFSET as int),
            regs,
            stacks,
            now_ns,
            readable,
            after,
        )
    }
}

/// A signal is recorded if and only if it is a crash signal: after the
/// program ran on a record that holds signal number and signal code, the
/// signal record of the task waits in the side map where the signal is one
/// of the five, and nothing has changed where it is not.
pub proof fn lemma_recorded_iff_crash_signal(
    before: CaptureView,
    record: Seq<u8>,
    task: TaskInfo,
    regs: Registers,
    stacks: StackIds,
    now_ns: u64,
    readable: Seq<u8>,
    after: CaptureView,
    r: Result<(), i64>,
)
    requires
        record.len() >= SI_CODE_OFFSET + 4,
        signal_outcome(before, record, task, regs, stacks, now_ns, readable, after, r),
    ensures
        r is Ok,
        after.ring == before.ring,
        crash_signal(le_i32_at(record, SIGNAL_OFFSET as int) as int) ==> entry_value(
            after.pending_signals,
            task.spec_key(),
        ) == Some(
            signal_event_of(
                task,
                le_i32_at(record, SIGNAL_OFFSET as int),
                le_i32_at(record, SI_CODE_OFFSET as int),
                regs,
                stacks,
                now_ns,
            ),
        ),
        !crash_signal(le_i32_at(record, SIGNAL_OFFSET as int) as int) ==> after == before,
{
    if crash_signal(le_i32_at(record, SIGNAL_OFFSET as int) as int) {
        lemma_with_entry_value(
            before.pending_signals,
            task.spec_key(),
            signal_event_of(
                task,
                le_i32_at(record, SIGNAL_OFFSET as int),
                le_i32_at(record, SI_CODE_OFFSET as int),
                regs,
                stacks,
                now_ns,
            ),
        );
    }
}

/// Runs on `signal_deliver` in the context of `task`. `record` is the record
/// of the tracepoint, `regs` the saved registers of the task, `stacks` the
/// handles of its stack traces, `now_ns` the monotonic clock and `readable`
/// the bytes that can be read from its stack pointer on.
///
/// Any signal but a crash signal is ignored. A crash signal is recorded in
/// the side maps; no frame is submitted before the task exits.
pub fn try_handle_signal_deliver(
    state: &mut CaptureState,
    record: &[u8],
    task: &TaskInfo,
    regs: &Registers,
    stacks: StackIds,
    now_ns: u64,
    readable: &[u8],
) -> (r: Result<(), i64>)
    ensures
        final(state)@.contents_wf(),
        signal_outcome(
            old(state)@,
            record@,
            *task,
            *regs,
            stacks,
            now_ns,
            readable@,
            final(state)@,
            r,
        ),
{
    proof {
        use_type_invariant(&*state);
    }
    let n: usize = record.len();
    if n < SIGNAL_OFFSET + 4 {
        return Err(READ_FAULT);
    }
    let signal: i32 = read_i32_le(record, SIGNAL_OFFSET);
    if !SignalDeliverEvent::is_crash_signal(signal) {
        return Ok(());
    }
    if n < SI_CODE_OFFSET + 4 {
        return Err(READ_FAULT);
    }
    let si_code: i32 = read_i32_le(record, SI_CODE_OFFSET);
    let event = SignalDeliverEvent {
        pid: task.pid,
        tid: task.tid,
        cmd: task.comm,
        boottime: task.boottime,
        signal,
        si_code,
        fault_addr: task.fault_addr,
        timestamp_ns: now_ns,
        rip: regs.rip,
        rsp: regs.rsp,
        rbp: regs.rbp,
        rax: regs.rax,
        rbx: regs.rbx,
        rcx: regs.rcx,
        rdx: regs.rdx,
        rsi: regs.rsi,
        rdi: regs.rdi,
        r8: regs.r8,
        r9: regs.r9,
        r10: regs.r10,
        r11: regs.r11,
        r12: regs.r12,
        r13: regs.r13,
        r14: regs.r14,
        r15: regs.r15,
        rflags: regs.rflags,
        kernel_stack_id: stacks.kernel_stack_id,
        user_stack_id: stacks.user_stack_id,
    };
    let key: StackDumpKey = task.key();
    if regs.rsp != 0 {
        let dump = capture_stack(regs.rsp, readable);
        state.put_dump(key, dump);
    }
    state.put_pending(key, event);
    Ok(())
}

/// The entry of the signal tracepoint: 0 where the program ran through, the
/// error number where it could not read the record.
pub fn handle_signal_deliver(
    state: &mut CaptureState,
    record: &[u8],
    task: &TaskInfo,
    regs: &Registers,
    stacks: StackIds,
    now_ns: u64,
    readable: &[u8],
) -> (code: u32)
    ensures
        final(state)@.contents_wf(),
        exists|r: Result<(), i64>|
            #[trigger] signal_outcome(
                old(state)@,
                record@,
                *task,
                *regs,
                stacks,
                now_ns,
                readable@,
                final(state)@,
                r,
            ) && code == exit_status(r),
{
    let r = try_handle_signal_deliver(state, record, task, regs, stacks, now_ns, readable);
    match r {
        Ok(()) => 0,
        Err(e) => #[verifier::truncate] (e as u32),
    }
}

/// The status that a program returns for the result `r`.
pub open spec fn exit_status(r: Result<(), i64>) -> u32 {
    match r {
        Ok(_) => 0,
        Err(e) => e as u32,
    }
}

} // verus!
