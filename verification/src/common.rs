//! The event records shared by the kernel capture plane and the userspace
//! correlator, and their fixed little-endian layout.
//!
//! A ring-buffer frame is `FRAME_SIZE` bytes: a 32-bit discriminant, 32 bits
//! of padding, and a payload region as large as the largest record. The
//! discriminant alone decides how the payload region is read.

use crate::bytes::{
    le_bytes_i32, le_bytes_i64, le_bytes_u32, le_bytes_u64, le_i32_at, le_i64_at, le_u32_at,
    le_u64_at, lemma_le_bytes_len, lemma_le_i32_round_trip, lemma_le_i64_round_trip,
    lemma_le_u32_round_trip, lemma_le_u64_round_trip, push_bytes, push_i32_le, push_i64_le,
    push_u32_le, push_u64_le, read_i32_le, read_i64_le, read_u32_le, read_u64_le,
};
use crate::text::{str_from_utf8, utf8};
use vstd::prelude::*;
use vstd::slice::*;
use vstd::string::*;
use vstd::utf8::*;

verus! {

/// Bytes in the raw user-stack capture buffer.
pub const STACK_DUMP_SIZE: usize = 16384;

/// Signal number of an illegal-instruction fault.
pub const SIGILL: i32 = 4;

/// Signal number raised by `abort`.
pub const SIGABRT: i32 = 6;

/// Signal number of a bus error.
pub const SIGBUS: i32 = 7;

/// Signal number of an arithmetic fault.
pub const SIGFPE: i32 = 8;

/// Signal number of an invalid memory reference.
pub const SIGSEGV: i32 = 11;

/// Bytes in the command-name field of a signal record.
pub const COMM_LEN: usize = 16;

/// Bytes in the payload region of a frame: the size of the largest record.
pub const PAYLOAD_SIZE: usize = 216;

/// Bytes in a ring-buffer frame.
pub const FRAME_SIZE: usize = 224;

/// Offset of the payload region inside a frame.
pub const PAYLOAD_OFFSET: usize = 8;

/// The signals that count as crashes.
pub open spec fn crash_signal(sig: int) -> bool {
    sig == 4 || sig == 6 || sig == 7 || sig == 8 || sig == 11
}

/// `n` zero bytes.
pub open spec fn zeros(n: nat) -> Seq<u8> {
    Seq::new(n, |i: int| 0u8)
}

/// Appends `n` zero bytes to `out`.
pub fn push_zeros(out: &mut Vec<u8>, n: usize)
    ensures
        final(out)@ == old(out)@ + zeros(n as nat),
{
    let mut i: usize = 0;
    while i < n
        invariant
            i <= n,
            out@ == old(out)@ + zeros(i as nat),
        decreases n - i,
    {
        out.push(0u8);
        i = i + 1;
        assert(out@ =~= old(out)@ + zeros(i as nat));
    }
}

/// The discriminant of a frame.
#[derive(Clone, Copy, Debug, PartialEq, Eq, Structural)]
pub enum EventType {
    /// A process image was executed.
    SchedExec,
    /// A crash signal was delivered to a task that has since exited.
    SignalDeliver,
    /// A task exited.
    SchedExit,
}

impl EventType {
    /// The 32-bit value that stands for this discriminant on the wire.
    pub open spec fn tag_value(self) -> u32 {
        match self {
            EventType::SchedExec => 0,
            EventType::SignalDeliver => 1,
            EventType::SchedExit => 2,
        }
    }

    /// The discriminant that a wire value stands for, if any.
    pub open spec fn of_tag(tag: u32) -> Option<EventType> {
        if tag == 0 {
            Some(EventType::SchedExec)
        } else if tag == 1 {
            Some(EventType::SignalDeliver)
        } else if tag == 2 {
            Some(EventType::SchedExit)
        } else {
            None
        }
    }

    /// The 32-bit value that stands for this discriminant on the wire.
    pub fn to_tag(self) -> (tag: u32)
        ensures
            tag == self.tag_value(),
    {
        match self {
            EventType::SchedExec => 0,
            EventType::SignalDeliver => 1,
            EventType::SchedExit => 2,
        }
    }

    /// The discriminant that `tag` stands for; `None` for an unknown value.
    pub fn from_tag(tag: u32) -> (r: Option<EventType>)
        ensures
            r == EventType::of_tag(tag),
    {
        if tag == 0 {
            Some(EventType::SchedExec)
        } else if tag == 1 {
            Some(EventType::SignalDeliver)
        } else if tag == 2 {
            Some(EventType::SchedExit)
        } else {
            None
        }
    }
}

/// A process executed a new image.
#[derive(Clone, Copy, Debug, PartialEq, Eq)]
pub struct SchedExecEvent {
    pub pid: u32,
    pub boottime: u64,
}

impl SchedExecEvent {
    /// The record read from the start of a payload region.
    pub open spec fn parse(p: Seq<u8>) -> SchedExecEvent {
        SchedExecEvent { pid: le_u32_at(p, 0), boottime: le_u64_at(p, 8) }
    }

    /// The payload region that holds this record; unused bytes are zero.
    pub open spec fn payload_bytes(self) -> Seq<u8> {
        le_bytes_u32(self.pid) + zeros(4) + le_bytes_u64(self.boottime) + zeros(200)
    }

    /// Reads the record from the start of a payload region.
    pub fn decode(p: &[u8]) -> (e: SchedExecEvent)
        requires
            p@.len() >= 16,
        ensures
            e == SchedExecEvent::parse(p@),
    {
        SchedExecEvent { pid: read_u32_le(p, 0), boottime: read_u64_le(p, 8) }
    }

    /// Appends the payload region that holds this record.
    pub fn encode(&self, out: &mut Vec<u8>)
        ensures
            final(out)@ == old(out)@ + self.payload_bytes(),
            self.payload_bytes().len() == PAYLOAD_SIZE,
    {
        proof {
            lemma_le_bytes_len();
        }
        push_u32_le(out, self.pid);
        push_zeros(out, 4);
        push_u64_le(out, self.boottime);
        push_zeros(out, 200);
        assert(out@ =~= old(out)@ + self.payload_bytes());
    }
}

/// A task exited.
#[derive(Clone, Copy, Debug, PartialEq, Eq)]
pub struct SchedExitEvent {
    pub pid: u32,
    /// The kernel's exit code; its low 7 bits are the killing signal, or 0.
    pub exit_code: u32,
    pub boottime: u64,
}

impl SchedExitEvent {
    /// The record read from the start of a payload region.
    pub open spec fn parse(p: Seq<u8>) -> SchedExitEvent {
        SchedExitEvent {
            pid: le_u32_at(p, 0),
            exit_code: le_u32_at(p, 4),
            boottime: le_u64_at(p, 8),
        }
    }

    /// The payload region that holds this record; unused bytes are zero.
    pub open spec fn payload_bytes(self) -> Seq<u8> {
        le_bytes_u32(self.pid) + le_bytes_u32(self.exit_code) + le_bytes_u64(self.boottime)
            + zeros(200)
    }

    /// Reads the record from the start of a payload region.
    pub fn decode(p: &[u8]) -> (e: SchedExitEvent)
        requires
            p@.len() >= 16,
        ensures
            e == SchedExitEvent::parse(p@),
    {
        SchedExitEvent {
            pid: read_u32_le(p, 0),
            exit_code: read_u32_le(p, 4),
            boottime: read_u64_le(p, 8),
        }
    }

    /// Appends the payload region that holds this record.
    pub fn encode(&self, out: &mut Vec<u8>)
        ensures
            final(out)@ == old(out)@ + self.payload_bytes(),
            self.payload_bytes().len() == PAYLOAD_SIZE,
    {
        proof {
            lemma_le_bytes_len();
        }
        push_u32_le(out, self.pid);
        push_u32_le(out, self.exit_code);
        push_u64_le(out, self.boottime);
        push_zeros(out, 200);
        assert(out@ =~= old(out)@ + self.payload_bytes());
    }

    /// The signal that killed the task, or 0: the low 7 bits of the exit code.
    pub open spec fn spec_term_signal(self) -> u32 {
        self.exit_code & 0x7f
    }

    /// The signal that killed the task, or 0: the low 7 bits of the exit code.
    pub fn term_signal(&self) -> (s: u32)
        ensures
            s == self.spec_term_signal(),
            s < 128,
    {
        let c: u32 = self.exit_code;
        assert(c & 0x7f < 128) by (bit_vector);
        c & 0x7f
    }
}

/// `s` without its trailing NUL bytes.
pub open spec fn trimmed_nul(s: Seq<u8>) -> Seq<u8>
    decreases s.len(),
{
    if s.len() > 0 && s.last() == 0 {
        trimmed_nul(s.drop_last())
    } else {
        s
    }
}

/// The command name that a NUL-padded field holds, as UTF-8: the field
/// without its trailing NUL bytes, or `<unknown>` where that is not text.
pub open spec fn command_bytes(cmd: Seq<u8>) -> Seq<u8> {
    if valid_utf8(trimmed_nul(cmd)) {
        trimmed_nul(cmd)
    } else {
        utf8("<unknown>"@)
    }
}

/// A crash signal as captured at delivery: who received it, what it was, and
/// the machine context of the faulting thread.
#[derive(Clone, Copy, Debug, PartialEq, Eq)]
pub struct SignalDeliverEvent {
    pub pid: u32,
    pub tid: u32,
    /// The command name, NUL-padded.
    pub cmd: [u8; COMM_LEN],
    pub boottime: u64,
    pub signal: i32,
    pub si_code: i32,
    pub fault_addr: u64,
    pub timestamp_ns: u64,
    pub rip: u64,
    pub rsp: u64,
    pub rbp: u64,
    pub rax: u64,
    pub rbx: u64,
    pub rcx: u64,
    pub rdx: u64,
    pub rsi: u64,
    pub rdi: u64,
    pub r8: u64,
    pub r9: u64,
    pub r10: u64,
    pub r11: u64,
    pub r12: u64,
    pub r13: u64,
    pub r14: u64,
    pub r15: u64,
    pub rflags: u64,
    /// Handle of the kernel stack trace; -1 when unavailable.
    pub kernel_stack_id: i64,
    /// Handle of the user stack trace; -1 when unavailable.
    pub user_stack_id: i64,
}

impl SignalDeliverEvent {
    /// Whether this record is what the start of the payload region `p` holds.
    pub open spec fn matches_payload(self, p: Seq<u8>) -> bool {
        &&& self.pid == le_u32_at(p, 0)
        &&& self.tid == le_u32_at(p, 4)
        &&& self.cmd@ == p.subrange(8, 24)
        &&& self.boottime == le_u64_at(p, 24)
        &&& self.signal == le_i32_at(p, 32)
        &&& self.si_code == le_i32_at(p, 36)
        &&& self.fault_addr == le_u64_at(p, 40)
        &&& self.timestamp_ns == le_u64_at(p, 48)
        &&& self.rip == le_u64_at(p, 56)
        &&& self.rsp == le_u64_at(p, 64)
        &&& self.rbp == le_u64_at(p, 72)
        &&& self.rax == le_u64_at(p, 80)
        &&& self.rbx == le_u64_at(p, 88)
        &&& self.rcx == le_u64_at(p, 96)
        &&& self.rdx == le_u64_at(p, 104)
        &&& self.rsi == le_u64_at(p, 112)
        &&& self.rdi == le_u64_at(p, 120)
        &&& self.r8 == le_u64_at(p, 128)
        &&& self.r9 == le_u64_at(p, 136)
        &&& self.r10 == le_u64_at(p, 144)
        &&& self.r11 == le_u64_at(p, 152)
        &&& self.r12 == le_u64_at(p, 160)
        &&& self.r13 == le_u64_at(p, 168)
        &&& self.r14 == le_u64_at(p, 176)
        &&& self.r15 == le_u64_at(p, 184)
        &&& self.rflags == le_u64_at(p, 192)
        &&& self.kernel_stack_id == le_i64_at(p, 200)
        &&& self.user_stack_id == le_i64_at(p, 208)
    }

    /// The payload region that holds this record.
    pub open spec fn payload_bytes(self) -> Seq<u8> {
        self.head_bytes() + self.register_bytes() + le_bytes_i64(self.kernel_stack_id)
            + le_bytes_i64(self.user_stack_id)
    }

    /// The first 56 bytes of the payload: identity, signal and timestamp.
    pub open spec fn head_bytes(self) -> Seq<u8> {
        le_bytes_u32(self.pid) + le_bytes_u32(self.tid) + self.cmd@ + le_bytes_u64(self.boottime)
            + le_bytes_i32(self.signal) + le_bytes_i32(self.si_code) + le_bytes_u64(
            self.fault_addr,
        ) + le_bytes_u64(self.timestamp_ns)
    }

    /// The 144 bytes of the register bank, in wire order.
    pub open spec fn register_bytes(self) -> Seq<u8> {
        le_bytes_u64(self.rip)
            + le_bytes_u64(self.rsp)
            + le_bytes_u64(self.rbp)
            + le_bytes_u64(self.rax)
            + le_bytes_u64(self.rbx)
            + le_bytes_u64(self.rcx)
            + le_bytes_u64(self.rdx)
            + le_bytes_u64(self.rsi)
            + le_bytes_u64(self.rdi)
            + le_bytes_u64(self.r8)
            + le_bytes_u64(self.r9)
            + le_bytes_u64(self.r10)
            + le_bytes_u64(self.r11)
            + le_bytes_u64(self.r12)
            + le_bytes_u64(self.r13)
            + le_bytes_u64(self.r14)
            + le_bytes_u64(self.r15)
            + le_bytes_u64(self.rflags)
    }

    /// Whether every field is zero and both stack handles are unavailable.
    pub open spec fn is_zeroed(self) -> bool {
        &&& self.pid == 0
        &&& self.tid == 0
        &&& self.cmd@ == zeros(16)
        &&& self.boottime == 0
        &&& self.signal == 0
        &&& self.si_code == 0
        &&& self.fault_addr == 0
        &&& self.timestamp_ns == 0
        &&& self.rip == 0
        &&& self.rsp == 0
        &&& self.rbp == 0
        &&& self.rax == 0
        &&& self.rbx == 0
        &&& self.rcx == 0
        &&& self.rdx == 0
        &&& self.rsi == 0
        &&& self.rdi == 0
        &&& self.r8 == 0
        &&& self.r9 == 0
        &&& self.r10 == 0
        &&& self.r11 == 0
        &&& self.r12 == 0
        &&& self.r13 == 0
        &&& self.r14 == 0
        &&& self.r15 == 0
        &&& self.rflags == 0
        &&& self.kernel_stack_id == -1
        &&& self.user_stack_id == -1
    }

    /// A record with every field zero and both stack handles unavailable.
    pub fn zeroed() -> (e: SignalDeliverEvent)
        ensures
            e.is_zeroed(),
    {
        let cmd: [u8; 16] = [0u8; 16];
        assert(cmd@ =~= zeros(16));
        SignalDeliverEvent {
            pid: 0,
            tid: 0,
            cmd,
            boottime: 0,
            signal: 0,
            si_code: 0,
            fault_addr: 0,
            timestamp_ns: 0,
            rip: 0,
            rsp: 0,
            rbp: 0,
            rax: 0,
            rbx: 0,
            rcx: 0,
            rdx: 0,
            rsi: 0,
            rdi: 0,
            r8: 0,
            r9: 0,
            r10: 0,
            r11: 0,
            r12: 0,
            r13: 0,
            r14: 0,
            r15: 0,
            rflags: 0,
            kernel_stack_id: -1,
            user_stack_id: -1,
        }
    }

    /// The command name of this record as text.
    pub fn command(&self) -> (name: String)
        ensures
            utf8(name@) == command_bytes(self.cmd@),
    {
        let mut end: usize = 16;
        assert(self.cmd@.take(16) =~= self.cmd@);
        while end > 0 && self.cmd[end - 1] == 0
            invariant
                end <= 16,
                trimmed_nul(self.cmd@) == trimmed_nul(self.cmd@.take(end as int)),
            decreases end,
        {
            assert(self.cmd@.take(end as int).drop_last() =~= self.cmd@.take(end - 1));
            end = end - 1;
        }
        let name: &[u8] = slice_subrange(self.cmd.as_slice(), 0, end);
        assert(name@ =~= trimmed_nul(self.cmd@));
        match str_from_utf8(name) {
            Some(text) => text.to_owned(),
            None => "<unknown>".to_owned(),
        }
    }

    /// Whether `sig` is one of the five fatal signals that are recorded.
    pub fn is_crash_signal(sig: i32) -> (r: bool)
        ensures
            r == crash_signal(sig as int),
    {
        sig == SIGILL || sig == SIGABRT || sig == SIGBUS || sig == SIGFPE || sig == SIGSEGV
    }

    /// Reads the record from the start of a payload region.
    pub fn decode(p: &[u8]) -> (e: SignalDeliverEvent)
        requires
            p@.len() >= PAYLOAD_SIZE,
        ensures
            e.matches_payload(p@),
    {
        let mut cmd: [u8; 16] = [0u8; 16];
        let mut i: usize = 0;
        while i < 16
            invariant
                i <= 16,
                p@.len() >= PAYLOAD_SIZE,
                forall|k: int| 0 <= k < i ==> cmd@[k] == p@[8 + k],
            decreases 16 - i,
        {
            cmd[i] = p[8 + i];
            i = i + 1;
        }
        assert(cmd@ =~= p@.subrange(8, 24));
        SignalDeliverEvent {
            pid: read_u32_le(p, 0),
            tid: read_u32_le(p, 4),
            cmd,
            boottime: read_u64_le(p, 24),
            signal: read_i32_le(p, 32),
            si_code: read_i32_le(p, 36),
            fault_addr: read_u64_le(p, 40),
            timestamp_ns: read_u64_le(p, 48),
            rip: read_u64_le(p, 56),
            rsp: read_u64_le(p, 64),
            rbp: read_u64_le(p, 72),
            rax: read_u64_le(p, 80),
            rbx: read_u64_le(p, 88),
            rcx: read_u64_le(p, 96),
            rdx: read_u64_le(p, 104),
            rsi: read_u64_le(p, 112),
            rdi: read_u64_le(p, 120),
            r8: read_u64_le(p, 128),
            r9: read_u64_le(p, 136),
            r10: read_u64_le(p, 144),
            r11: read_u64_le(p, 152),
            r12: read_u64_le(p, 160),
            r13: read_u64_le(p, 168),
            r14: read_u64_le(p, 176),
            r15: read_u64_le(p, 184),
            rflags: read_u64_le(p, 192),
            kernel_stack_id: read_i64_le(p, 200),
            user_stack_id: read_i64_le(p, 208),
        }
    }

    /// Appends the payload region that holds this record.
    pub fn encode(&self, out: &mut Vec<u8>)
        ensures
            final(out)@ == old(out)@ + self.payload_bytes(),
            self.payload_bytes().len() == PAYLOAD_SIZE,
    {
        proof {
            lemma_le_bytes_len();
        }
        push_u32_le(out, self.pid);
        push_u32_le(out, self.tid);
        push_bytes(out, self.cmd.as_slice());
        push_u64_le(out, self.boottime);
        push_i32_le(out, self.signal);
        push_i32_le(out, self.si_code);
        push_u64_le(out, self.fault_addr);
        push_u64_le(out, self.timestamp_ns);
        assert(out@ =~= old(out)@ + self.head_bytes());
        push_u64_le(out, self.rip);
        push_u64_le(out, self.rsp);
        push_u64_le(out, self.rbp);
        push_u64_le(out, self.rax);
        push_u64_le(out, self.rbx);
        push_u64_le(out, self.rcx);
        push_u64_le(out, self.rdx);
        push_u64_le(out, self.rsi);
        push_u64_le(out, self.rdi);
        push_u64_le(out, self.r8);
        push_u64_le(out, self.r9);
        push_u64_le(out, self.r10);
        push_u64_le(out, self.r11);
        push_u64_le(out, self.r12);
        push_u64_le(out, self.r13);
        push_u64_le(out, self.r14);
        push_u64_le(out, self.r15);
        push_u64_le(out, self.rflags);
        assert(out@ =~= old(out)@ + self.head_bytes() + self.register_bytes());
        push_i64_le(out, self.kernel_stack_id);
        push_i64_le(out, self.user_stack_id);
        assert(out@ =~= old(out)@ + self.payload_bytes());
    }
}

/// Key of the kernel side maps: one faulting thread of one process.
#[derive(Clone, Copy, Debug, PartialEq, Eq, Structural)]
pub struct StackDumpKey {
    pub pid: u32,
    pub tid: u32,
    pub boottime: u64,
}

/// A bounded raw copy of the faulting thread's user stack.
#[derive(Clone, Copy, Debug, PartialEq, Eq)]
pub struct StackDump {
    /// The stack pointer at the fault: the address of `data[0]`.
    pub rsp: u64,
    /// How many bytes of `data` were captured.
    pub len: u32,
    pub data: [u8; STACK_DUMP_SIZE],
}

/// The lengths that a capture can have: nothing, or one of the four read sizes.
pub open spec fn valid_dump_len(len: int) -> bool {
    len == 0 || len == 2048 || len == 4096 || len == 8192 || len == 16384
}

impl StackDump {
    /// The declared length is one that a capture can have.
    pub open spec fn wf(self) -> bool {
        valid_dump_len(self.len as int)
    }

    /// How many bytes of the buffer the declared length covers.
    pub open spec fn captured_len(self) -> int {
        if self.len as int <= STACK_DUMP_SIZE as int {
            self.len as int
        } else {
            STACK_DUMP_SIZE as int
        }
    }

    /// The captured bytes: the buffer cut to its declared length.
    pub open spec fn captured(self) -> Seq<u8> {
        self.data@.subrange(0, self.captured_len())
    }

    /// The captured bytes: the buffer cut to its declared length.
    pub fn captured_bytes(&self) -> (b: &[u8])
        ensures
            b@ == self.captured(),
            self.wf() ==> b@.len() == self.len,
    {
        let n: usize = if (self.len as usize) <= STACK_DUMP_SIZE {
            self.len as usize
        } else {
            STACK_DUMP_SIZE
        };
        slice_subrange(self.data.as_slice(), 0, n)
    }
}

/// Why a chunk read from the ring is not a frame.
#[derive(Clone, Copy, Debug, PartialEq, Eq)]
pub enum FrameError {
    /// The chunk has fewer than `FRAME_SIZE` bytes.
    TooShort { len: usize },
    /// The discriminant is none of the known ones.
    UnknownTag { tag: u32 },
}

/// One frame of the ring buffer: a discriminant and the payload region that it
/// governs.
#[derive(Clone, Copy, Debug, PartialEq, Eq)]
pub struct CrashTracerEvent {
    pub tag: EventType,
    pub payload: [u8; PAYLOAD_SIZE],
}

/// Copies `PAYLOAD_SIZE` bytes of `bytes`, from offset `at`, into an array.
fn payload_array(bytes: &[u8], at: usize) -> (p: [u8; PAYLOAD_SIZE])
    requires
        at + PAYLOAD_SIZE <= bytes@.len(),
    ensures
        p@ == bytes@.subrange(at as int, at + PAYLOAD_SIZE),
{
    let n: usize = bytes.len();
    let mut p: [u8; PAYLOAD_SIZE] = [0u8; 216];
    let mut i: usize = 0;
    while i < PAYLOAD_SIZE
        invariant
            i <= PAYLOAD_SIZE,
            at + PAYLOAD_SIZE <= bytes@.len(),
            bytes@.len() == n,
            forall|k: int| 0 <= k < i ==> p@[k] == bytes@[at + k],
        decreases PAYLOAD_SIZE - i,
    {
        p[i] = bytes[at + i];
        i = i + 1;
    }
    assert(p@ =~= bytes@.subrange(at as int, at + PAYLOAD_SIZE));
    p
}

/// What a chunk read from the ring decodes to.
pub open spec fn parse_frame(data: Seq<u8>) -> Result<(EventType, Seq<u8>), FrameError> {
    if data.len() < FRAME_SIZE {
        Err(FrameError::TooShort { len: data.len() as usize })
    } else {
        match EventType::of_tag(le_u32_at(data, 0)) {
            None => Err(FrameError::UnknownTag { tag: le_u32_at(data, 0) }),
            Some(tag) => Ok((tag, data.subrange(PAYLOAD_OFFSET as int, FRAME_SIZE as int))),
        }
    }
}

impl CrashTracerEvent {
    /// The frame that carries an exec record.
    pub fn exec(e: &SchedExecEvent) -> (f: CrashTracerEvent)
        ensures
            f.tag == EventType::SchedExec,
            f.payload@ == e.payload_bytes(),
    {
        let mut v: Vec<u8> = Vec::new();
        e.encode(&mut v);
        let p = payload_array(v.as_slice(), 0);
        assert(p@ =~= e.payload_bytes());
        CrashTracerEvent { tag: EventType::SchedExec, payload: p }
    }

    /// The frame that carries an exit record.
    pub fn exit(e: &SchedExitEvent) -> (f: CrashTracerEvent)
        ensures
            f.tag == EventType::SchedExit,
            f.payload@ == e.payload_bytes(),
    {
        let mut v: Vec<u8> = Vec::new();
        e.encode(&mut v);
        let p = payload_array(v.as_slice(), 0);
        assert(p@ =~= e.payload_bytes());
        CrashTracerEvent { tag: EventType::SchedExit, payload: p }
    }

    /// The frame that carries a signal record.
    pub fn signal(e: &SignalDeliverEvent) -> (f: CrashTracerEvent)
        ensures
            f.tag == EventType::SignalDeliver,
            f.payload@ == e.payload_bytes(),
    {
        let mut v: Vec<u8> = Vec::new();
        e.encode(&mut v);
        let p = payload_array(v.as_slice(), 0);
        assert(p@ =~= e.payload_bytes());
        CrashTracerEvent { tag: EventType::SignalDeliver, payload: p }
    }

    /// The exec record of this frame; `None` unless the discriminant says so.
    pub fn as_exec(&self) -> (r: Option<SchedExecEvent>)
        ensures
            r == if self.tag == EventType::SchedExec {
                Some(SchedExecEvent::parse(self.payload@))
            } else {
                None
            },
    {
        match self.tag {
            EventType::SchedExec => Some(SchedExecEvent::decode(self.payload.as_slice())),
            _ => None,
        }
    }

    /// The signal record of this frame; `None` unless the discriminant says so.
    pub fn as_signal(&self) -> (r: Option<SignalDeliverEvent>)
        ensures
            r is Some <==> self.tag == EventType::SignalDeliver,
            r is Some ==> r->0.matches_payload(self.payload@),
    {
        match self.tag {
            EventType::SignalDeliver => Some(SignalDeliverEvent::decode(self.payload.as_slice())),
            _ => None,
        }
    }

    /// The exit record of this frame; `None` unless the discriminant says so.
    pub fn as_exit(&self) -> (r: Option<SchedExitEvent>)
        ensures
            r == if self.tag == EventType::SchedExit {
                Some(SchedExitEvent::parse(self.payload@))
            } else {
                None
            },
    {
        match self.tag {
            EventType::SchedExit => Some(SchedExitEvent::decode(self.payload.as_slice())),
            _ => None,
        }
    }

    /// The bytes of this frame on the wire.
    pub open spec fn frame_bytes(self) -> Seq<u8> {
        le_bytes_u32(self.tag.tag_value()) + zeros(4) + self.payload@
    }

    /// The bytes of this frame on the wire.
    pub fn to_bytes(&self) -> (out: Vec<u8>)
        ensures
            out@ == self.frame_bytes(),
            out@.len() == FRAME_SIZE,
    {
        proof {
            lemma_le_bytes_len();
        }
        let mut out: Vec<u8> = Vec::new();
        push_u32_le(&mut out, self.tag.to_tag());
        push_zeros(&mut out, 4);
        push_bytes(&mut out, self.payload.as_slice());
        assert(out@ =~= self.frame_bytes());
        out
    }

    /// Decodes one chunk read from the ring. A chunk shorter than a frame and
    /// a chunk with an unknown discriminant are rejected; bytes past the frame
    /// are ignored.
    pub fn from_bytes(data: &[u8]) -> (r: Result<CrashTracerEvent, FrameError>)
        ensures
            match parse_frame(data@) {
                Err(e) => r == Err::<CrashTracerEvent, FrameError>(e),
                Ok((tag, payload)) => r is Ok && r->Ok_0.tag == tag && r->Ok_0.payload@ == payload,
            },
    {
        let n: usize = data.len();
        if n < FRAME_SIZE {
            return Err(FrameError::TooShort { len: n });
        }
        let raw: u32 = read_u32_le(data, 0);
        match EventType::from_tag(raw) {
            None => Err(FrameError::UnknownTag { tag: raw }),
            Some(tag) => Ok(CrashTracerEvent { tag, payload: payload_array(data, PAYLOAD_OFFSET) }),
        }
    }
}

/// An exec record written into a payload region is read back unchanged.
pub proof fn lemma_exec_round_trip(e: SchedExecEvent)
    ensures
        e.payload_bytes().len() == PAYLOAD_SIZE,
        SchedExecEvent::parse(e.payload_bytes()) == e,
{
    lemma_le_bytes_len();
    let p = e.payload_bytes();
    assert(p.subrange(0, 4) =~= le_bytes_u32(e.pid));
    assert(p.subrange(8, 16) =~= le_bytes_u64(e.boottime));
    lemma_le_u32_round_trip(p, 0, e.pid);
    lemma_le_u64_round_trip(p, 8, e.boottime);
}

/// An exit record written into a payload region is read back unchanged.
pub proof fn lemma_exit_round_trip(e: SchedExitEvent)
    ensures
        e.payload_bytes().len() == PAYLOAD_SIZE,
        SchedExitEvent::parse(e.payload_bytes()) == e,
{
    lemma_le_bytes_len();
    let p = e.payload_bytes();
    assert(p.subrange(0, 4) =~= le_bytes_u32(e.pid));
    assert(p.subrange(4, 8) =~= le_bytes_u32(e.exit_code));
    assert(p.subrange(8, 16) =~= le_bytes_u64(e.boottime));
    lemma_le_u32_round_trip(p, 0, e.pid);
    lemma_le_u32_round_trip(p, 4, e.exit_code);
    lemma_le_u64_round_trip(p, 8, e.boottime);
}

/// A signal record written into a payload region is what that region holds.
pub proof fn lemma_signal_round_trip(e: SignalDeliverEvent)
    ensures
        e.payload_bytes().len() == PAYLOAD_SIZE,
        e.matches_payload(e.payload_bytes()),
{
    lemma_le_bytes_len();
    let p = e.payload_bytes();
    assert(e.head_bytes().len() == 56);
    assert(e.register_bytes().len() == 144);
    assert(p.subrange(0, 4) =~= le_bytes_u32(e.pid));
    assert(p.subrange(4, 8) =~= le_bytes_u32(e.tid));
    assert(p.subrange(8, 24) =~= e.cmd@);
    assert(p.subrange(24, 32) =~= le_bytes_u64(e.boottime));
    assert(p.subrange(32, 36) =~= le_bytes_i32(e.signal));
    assert(p.subrange(36, 40) =~= le_bytes_i32(e.si_code));
    assert(p.subrange(40, 48) =~= le_bytes_u64(e.fault_addr));
    assert(p.subrange(48, 56) =~= le_bytes_u64(e.timestamp_ns));
    lemma_le_u32_round_trip(p, 0, e.pid);
    lemma_le_u32_round_trip(p, 4, e.tid);
    lemma_le_u64_round_trip(p, 24, e.boottime);
    lemma_le_i32_round_trip(p, 32, e.signal);
    lemma_le_i32_round_trip(p, 36, e.si_code);
    lemma_le_u64_round_trip(p, 40, e.fault_addr);
    lemma_le_u64_round_trip(p, 48, e.timestamp_ns);
    assert(p.subrange(56, 64) =~= le_bytes_u64(e.rip));
    lemma_le_u64_round_trip(p, 56, e.rip);
    assert(p.subrange(64, 72) =~= le_bytes_u64(e.rsp));
    lemma_le_u64_round_trip(p, 64, e.rsp);
    assert(p.subrange(72, 80) =~= le_bytes_u64(e.rbp));
    lemma_le_u64_round_trip(p, 72, e.rbp);
    assert(p.subrange(80, 88) =~= le_bytes_u64(e.rax));
    lemma_le_u64_round_trip(p, 80, e.rax);
    assert(p.subrange(88, 96) =~= le_bytes_u64(e.rbx));
    lemma_le_u64_round_trip(p, 88, e.rbx);
    assert(p.subrange(96, 104) =~= le_bytes_u64(e.rcx));
    lemma_le_u64_round_trip(p, 96, e.rcx);
    assert(p.subrange(104, 112) =~= le_bytes_u64(e.rdx));
    lemma_le_u64_round_trip(p, 104, e.rdx);
    assert(p.subrange(112, 120) =~= le_bytes_u64(e.rsi));
    lemma_le_u64_round_trip(p, 112, e.rsi);
    assert(p.subrange(120, 128) =~= le_bytes_u64(e.rdi));
    lemma_le_u64_round_trip(p, 120, e.rdi);
    assert(p.subrange(128, 136) =~= le_bytes_u64(e.r8));
    lemma_le_u64_round_trip(p, 128, e.r8);
    assert(p.subrange(136, 144) =~= le_bytes_u64(e.r9));
    lemma_le_u64_round_trip(p, 136, e.r9);
    assert(p.subrange(144, 152) =~= le_bytes_u64(e.r10));
    lemma_le_u64_round_trip(p, 144, e.r10);
    assert(p.subrange(152, 160) =~= le_bytes_u64(e.r11));
    lemma_le_u64_round_trip(p, 152, e.r11);
    assert(p.subrange(160, 168) =~= le_bytes_u64(e.r12));
    lemma_le_u64_round_trip(p, 160, e.r12);
    assert(p.subrange(168, 176) =~= le_bytes_u64(e.r13));
    lemma_le_u64_round_trip(p, 168, e.r13);
    assert(p.subrange(176, 184) =~= le_bytes_u64(e.r14));
    lemma_le_u64_round_trip(p, 176, e.r14);
    assert(p.subrange(184, 192) =~= le_bytes_u64(e.r15));
    lemma_le_u64_round_trip(p, 184, e.r15);
    assert(p.subrange(192, 200) =~= le_bytes_u64(e.rflags));
    lemma_le_u64_round_trip(p, 192, e.rflags);
    assert(p.subrange(200, 208) =~= le_bytes_i64(e.kernel_stack_id));
    assert(p.subrange(208, 216) =~= le_bytes_i64(e.user_stack_id));
    lemma_le_i64_round_trip(p, 200, e.kernel_stack_id);
    lemma_le_i64_round_trip(p, 208, e.user_stack_id);
}

/// A payload region holds at most one signal record.
pub proof fn lemma_signal_payload_unique(a: SignalDeliverEvent, b: SignalDeliverEvent, p: Seq<u8>)
    requires
        a.matches_payload(p),
        b.matches_payload(p),
    ensures
        a == b,
{
    assert(a.cmd@ =~= b.cmd@);
    assert(a.cmd =~= b.cmd);
}

/// A frame written to the wire decodes to its own discriminant and payload.
pub proof fn lemma_frame_round_trip(f: CrashTracerEvent)
    ensures
        f.frame_bytes().len() == FRAME_SIZE,
        parse_frame(f.frame_bytes()) == Ok::<(EventType, Seq<u8>), FrameError>(
            (f.tag, f.payload@),
        ),
{
    lemma_le_bytes_len();
    let b = f.frame_bytes();
    assert(b.subrange(0, 4) =~= le_bytes_u32(f.tag.tag_value()));
    lemma_le_u32_round_trip(b, 0, f.tag.tag_value());
    assert(b.subrange(PAYLOAD_OFFSET as int, FRAME_SIZE as int) =~= f.payload@);
}

} // verus!
