//! The rows of the crash store, column for column, and how the values of an
//! event become columns and back.
//!
//! Integer columns are signed 64-bit. An unsigned 64-bit value is stored as
//! the signed number with the same bits, and read back the same way.

use crate::common::{command_bytes, SignalDeliverEvent, StackDump};
use crate::db::Registers;
use crate::state::map::ProcessInfo;
use crate::text::utf8;
use vstd::prelude::*;
use vstd::slice::*;
use vstd::string::*;

verus! {

/// The signed column value with the bits of `v`.
pub open spec fn column_of(v: u64) -> i64 {
    v as i64
}

/// The unsigned value with the bits of the column value `c`.
pub open spec fn value_of(c: i64) -> u64 {
    c as u64
}

/// A value stored in a column is read back unchanged.
pub proof fn lemma_column_round_trip(v: u64)
    ensures
        value_of(column_of(v)) == v,
{
    assert((v as i64) as u64 == v) by (bit_vector);
}

/// The signed column value with the bits of `v`.
pub fn to_column(v: u64) -> (c: i64)
    ensures
        c == column_of(v),
{
    #[verifier::truncate]
    (v as i64)
}

/// The unsigned value with the bits of the column value `c`.
pub fn from_column(c: i64) -> (v: u64)
    ensures
        v == value_of(c),
{
    #[verifier::truncate]
    (c as u64)
}

/// Whether a crash still waits for the exit of its process.
#[derive(Clone, Copy, Debug, PartialEq, Eq, Structural)]
pub enum CrashStatus {
    Pending,
    Complete,
}

impl CrashStatus {
    /// The text that stands for this status in the store.
    pub open spec fn name(self) -> Seq<char> {
        match self {
            CrashStatus::Pending => "pending"@,
            CrashStatus::Complete => "complete"@,
        }
    }

    /// The text that stands for this status in the store.
    pub fn as_str(&self) -> (s: &'static str)
        ensures
            s@ == self.name(),
    {
        match self {
            CrashStatus::Pending => "pending",
            CrashStatus::Complete => "complete",
        }
    }
}

/// A row of `processes`.
#[derive(Clone, Debug, PartialEq, Eq)]
pub struct ProcessRow {
    pub id: i64,
    pub pid: i64,
    pub boottime: i64,
    pub runtime: String,
    pub cwd: Option<String>,
    pub cmdline: Option<String>,
}

/// A row of `memory_maps`.
#[derive(Clone, Debug, PartialEq, Eq)]
pub struct MapRow {
    pub process_id: i64,
    pub line_num: i64,
    pub content: String,
}

/// A row of `crashes`.
#[derive(Clone, Debug, PartialEq, Eq)]
pub struct CrashRow {
    pub id: i64,
    pub process_id: i64,
    pub boottime: i64,
    pub status: CrashStatus,
    pub signal: i32,
    pub si_code: i32,
    pub fault_addr: i64,
    pub timestamp_ns: i64,
    pub tid: u32,
    pub cmd: String,
    pub exit_code: Option<i64>,
    pub rip: i64,
    pub rsp: i64,
    pub rbp: i64,
    pub rax: i64,
    pub rbx: i64,
    pub rcx: i64,
    pub rdx: i64,
    pub rsi: i64,
    pub rdi: i64,
    pub r8: i64,
    pub r9: i64,
    pub r10: i64,
    pub r11: i64,
    pub r12: i64,
    pub r13: i64,
    pub r14: i64,
    pub r15: i64,
    pub rflags: i64,
    pub kernel_stack_id: i64,
    pub user_stack_id: i64,
}

/// A row of `stack_frames`.
#[derive(Clone, Copy, Debug, PartialEq, Eq)]
pub struct FrameRow {
    pub crash_id: i64,
    pub frame_index: i64,
    pub ip: i64,
}

/// A row of `stack_dumps`.
#[derive(Clone, Debug, PartialEq, Eq)]
pub struct DumpRow {
    pub crash_id: i64,
    pub rsp: i64,
    pub length: i64,
    pub data: Vec<u8>,
}

/// A row of `artifacts`.
#[derive(Clone, Debug, PartialEq, Eq)]
pub struct ArtifactRow {
    pub crash_id: i64,
    pub process_id: i64,
    pub filename: String,
    pub full_path: String,
    pub content: Option<Vec<u8>>,
}

/// Whether `row` is the row of `processes` with the given id that stands for
/// `info`.
pub open spec fn process_row_of(row: ProcessRow, id: i64, info: ProcessInfo) -> bool {
    &&& row.id == id
    &&& row.pid == info.pid as i64
    &&& row.boottime == column_of(info.boottime)
    &&& row.runtime@ == info.runtime.name()
    &&& row.cwd == info.cwd
    &&& row.cmdline == info.cmdline
}

/// Whether `row` is the pending row of `crashes` with the given ids that
/// stands for the signal record `e`.
pub open spec fn crash_row_of(row: CrashRow, id: i64, process_id: i64, e: SignalDeliverEvent)
    -> bool {
    &&& row.id == id
    &&& row.process_id == process_id
    &&& row.boottime == column_of(e.boottime)
    &&& row.status == CrashStatus::Pending
    &&& row.signal == e.signal
    &&& row.si_code == e.si_code
    &&& row.fault_addr == column_of(e.fault_addr)
    &&& row.timestamp_ns == column_of(e.timestamp_ns)
    &&& row.tid == e.tid
    &&& utf8(row.cmd@) == command_bytes(e.cmd@)
    &&& row.exit_code is None
    &&& row.rip == column_of(e.rip)
    &&& row.rsp == column_of(e.rsp)
    &&& row.rbp == column_of(e.rbp)
    &&& row.rax == column_of(e.rax)
    &&& row.rbx == column_of(e.rbx)
    &&& row.rcx == column_of(e.rcx)
    &&& row.rdx == column_of(e.rdx)
    &&& row.rsi == column_of(e.rsi)
    &&& row.rdi == column_of(e.rdi)
    &&& row.r8 == column_of(e.r8)
    &&& row.r9 == column_of(e.r9)
    &&& row.r10 == column_of(e.r10)
    &&& row.r11 == column_of(e.r11)
    &&& row.r12 == column_of(e.r12)
    &&& row.r13 == column_of(e.r13)
    &&& row.r14 == column_of(e.r14)
    &&& row.r15 == column_of(e.r15)
    &&& row.rflags == column_of(e.rflags)
    &&& row.kernel_stack_id == e.kernel_stack_id
    &&& row.user_stack_id == e.user_stack_id
}

/// The register bank that a row of `crashes` holds.
pub open spec fn registers_of_row(row: CrashRow) -> Registers {
    Registers {
        rip: value_of(row.rip),
        rsp: value_of(row.rsp),
        rbp: value_of(row.rbp),
        rax: value_of(row.rax),
        rbx: value_of(row.rbx),
        rcx: value_of(row.rcx),
        rdx: value_of(row.rdx),
        rsi: value_of(row.rsi),
        rdi: value_of(row.rdi),
        r8: value_of(row.r8),
        r9: value_of(row.r9),
        r10: value_of(row.r10),
        r11: value_of(row.r11),
        r12: value_of(row.r12),
        r13: value_of(row.r13),
        r14: value_of(row.r14),
        r15: value_of(row.r15),
        rflags: value_of(row.rflags),
    }
}

/// The rows of `stack_frames` for the frames from `from` on of the stack
/// trace of crash `crash_id`.
pub open spec fn frame_rows(crash_id: i64, frames: Seq<u64>) -> Seq<FrameRow> {
    Seq::new(
        frames.len(),
        |i: int| FrameRow { crash_id, frame_index: i as i64, ip: column_of(frames[i]) },
    )
}

/// How many bytes of the data of a dump row count: its declared length, or
/// all of them where that is no length within the data.
pub open spec fn stored_len(length: i64, data_len: int) -> int {
    if 0 <= length <= data_len {
        length as int
    } else {
        data_len
    }
}

impl ProcessRow {
    /// The row of `processes` with the given id that stands for `info`.
    pub fn from_info(id: i64, info: &ProcessInfo) -> (row: ProcessRow)
        ensures
            process_row_of(row, id, *info),
    {
        ProcessRow {
            id,
            pid: info.pid as i64,
            boottime: to_column(info.boottime),
            runtime: info.runtime.to_string(),
            cwd: info.cwd.clone(),
            cmdline: info.cmdline.clone(),
        }
    }
}

impl CrashRow {
    /// The pending row of `crashes` with the given ids that stands for the
    /// signal record `e`.
    pub fn from_event(id: i64, process_id: i64, e: &SignalDeliverEvent) -> (row: CrashRow)
        ensures
            crash_row_of(row, id, process_id, *e),
    {
        CrashRow {
            id,
            process_id,
            boottime: to_column(e.boottime),
            status: CrashStatus::Pending,
            signal: e.signal,
            si_code: e.si_code,
            fault_addr: to_column(e.fault_addr),
            timestamp_ns: to_column(e.timestamp_ns),
            tid: e.tid,
            cmd: e.command(),
            exit_code: None,
            rip: to_column(e.rip),
            rsp: to_column(e.rsp),
            rbp: to_column(e.rbp),
            rax: to_column(e.rax),
            rbx: to_column(e.rbx),
            rcx: to_column(e.rcx),
            rdx: to_column(e.rdx),
            rsi: to_column(e.rsi),
            rdi: to_column(e.rdi),
            r8: to_column(e.r8),
            r9: to_column(e.r9),
            r10: to_column(e.r10),
            r11: to_column(e.r11),
            r12: to_column(e.r12),
            r13: to_column(e.r13),
            r14: to_column(e.r14),
            r15: to_column(e.r15),
            rflags: to_column(e.rflags),
            kernel_stack_id: e.kernel_stack_id,
            user_stack_id: e.user_stack_id,
        }
    }

    /// The register bank that this row holds.
    pub fn registers(&self) -> (r: Registers)
        ensures
            r == registers_of_row(*self),
    {
        Registers {
            rip: from_column(self.rip),
            rsp: from_column(self.rsp),
            rbp: from_column(self.rbp),
            rax: from_column(self.rax),
            rbx: from_column(self.rbx),
            rcx: from_column(self.rcx),
            rdx: from_column(self.rdx),
            rsi: from_column(self.rsi),
            rdi: from_column(self.rdi),
            r8: from_column(self.r8),
            r9: from_column(self.r9),
            r10: from_column(self.r10),
            r11: from_column(self.r11),
            r12: from_column(self.r12),
            r13: from_column(self.r13),
            r14: from_column(self.r14),
            r15: from_column(self.r15),
            rflags: from_column(self.rflags),
        }
    }
}

impl DumpRow {
    /// The row of `stack_dumps` for the dump of crash `crash_id`: the whole
    /// buffer with its declared length.
    pub fn from_dump(crash_id: i64, dump: &StackDump) -> (row: DumpRow)
        ensures
            row.crash_id == crash_id,
            row.rsp == column_of(dump.rsp),
            row.length == dump.len as i64,
            row.data@ == dump.data@,
    {
        DumpRow {
            crash_id,
            rsp: to_column(dump.rsp),
            length: dump.len as i64,
            data: slice_to_vec(dump.data.as_slice()),
        }
    }

    /// The captured bytes of this row: its data cut to its declared length.
    pub open spec fn captured(self) -> Seq<u8> {
        self.data@.take(stored_len(self.length, self.data@.len() as int))
    }

    /// The stack pointer and the captured bytes of this row.
    pub fn to_dump(&self) -> (r: (u64, Vec<u8>))
        ensures
            r.0 == value_of(self.rsp),
            r.1@ == self.captured(),
    {
        let n: usize = self.data.len();
        let len: usize = if 0 <= self.length && self.length as u64 <= n as u64 {
            self.length as usize
        } else {
            n
        };
        let bytes: Vec<u8> = slice_to_vec(slice_subrange(self.data.as_slice(), 0, len));
        assert(bytes@ =~= self.captured());
        (from_column(self.rsp), bytes)
    }
}

} // verus!
