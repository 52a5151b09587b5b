//! The report renderer: the text of a crash report, written into a byte
//! buffer as UTF-8.
//!
//! Sections, in order: header, process and signal, fault address, exit code,
//! detected runtime, registers, user stack, raw stack dump, memory map,
//! artifacts. Apart from the `Generated` line the text is a function of the
//! crash data alone.

use crate::bytes::push_bytes;
use crate::common::{command_bytes, SignalDeliverEvent, StackDump};
use crate::db::{ArtifactData, CrashReportData, Registers};
use crate::state::map::ProcessInfo;
use crate::text::{
    decimal, decimal_width2, hex_fixed, push_decimal, push_decimal_width2, push_hex,
    lemma_run_len_is, push_signed_decimal, push_str, run_len, signed_decimal, str_bytes,
    str_from_utf8, utf8,
};
use vstd::prelude::*;
use vstd::slice::*;
use vstd::string::*;
use vstd::utf8::*;

verus! {

/// How many bytes of a text artifact are shown at most.
pub const ARTIFACT_PREVIEW: usize = 4096;

/// The name of a crash signal; `UNKNOWN` for any other number.
pub open spec fn signal_name_text(sig: int) -> Seq<char> {
    if sig == 4 {
        "SIGILL"@
    } else if sig == 6 {
        "SIGABRT"@
    } else if sig == 7 {
        "SIGBUS"@
    } else if sig == 8 {
        "SIGFPE"@
    } else if sig == 11 {
        "SIGSEGV"@
    } else {
        "UNKNOWN"@
    }
}

/// The name of a signal code under its signal; `UNKNOWN` for any other pair.
pub open spec fn si_code_name_text(sig: int, code: int) -> Seq<char> {
    if sig == 11 && code == 1 {
        "SEGV_MAPERR"@
    } else if sig == 11 && code == 2 {
        "SEGV_ACCERR"@
    } else if sig == 7 && code == 1 {
        "BUS_ADRALN"@
    } else if sig == 7 && code == 2 {
        "BUS_ADRERR"@
    } else if sig == 8 && code == 1 {
        "FPE_INTDIV"@
    } else if sig == 8 && code == 2 {
        "FPE_INTOVF"@
    } else if sig == 8 && code == 3 {
        "FPE_FLTDIV"@
    } else if sig == 4 && code == 1 {
        "ILL_ILLOPC"@
    } else {
        "UNKNOWN"@
    }
}

/// The name of a crash signal; `UNKNOWN` for any other number.
pub fn signal_name(sig: i32) -> (name: &'static str)
    ensures
        name@ == signal_name_text(sig as int),
{
    if sig == 4 {
        "SIGILL"
    } else if sig == 6 {
        "SIGABRT"
    } else if sig == 7 {
        "SIGBUS"
    } else if sig == 8 {
        "SIGFPE"
    } else if sig == 11 {
        "SIGSEGV"
    } else {
        "UNKNOWN"
    }
}

/// The name of a signal code under its signal; `UNKNOWN` for any other pair.
pub fn si_code_name(sig: i32, code: i32) -> (name: &'static str)
    ensures
        name@ == si_code_name_text(sig as int, code as int),
{
    if sig == 11 && code == 1 {
        "SEGV_MAPERR"
    } else if sig == 11 && code == 2 {
        "SEGV_ACCERR"
    } else if sig == 7 && code == 1 {
        "BUS_ADRALN"
    } else if sig == 7 && code == 2 {
        "BUS_ADRERR"
    } else if sig == 8 && code == 1 {
        "FPE_INTDIV"
    } else if sig == 8 && code == 2 {
        "FPE_INTOVF"
    } else if sig == 8 && code == 3 {
        "FPE_FLTDIV"
    } else if sig == 4 && code == 1 {
        "ILL_ILLOPC"
    } else {
        "UNKNOWN"
    }
}

/// The title and the line that says when the report was written.
#[verifier::opaque]
pub open spec fn header_text(generated: Seq<char>) -> Seq<u8> {
    utf8("Crash Report\n"@) + utf8("============\n"@) + utf8("Generated: "@) + utf8(generated)
        + utf8("\n"@) + utf8("\n"@)
}

/// Appends the title and the `Generated` line.
fn push_header(out: &mut Vec<u8>, generated: &str)
    ensures
        final(out)@ == old(out)@ + header_text(generated@),
{
    reveal(header_text);
    push_str(out, "Crash Report\n");
    push_str(out, "============\n");
    push_str(out, "Generated: ");
    push_str(out, generated);
    push_str(out, "\n");
    push_str(out, "\n");
    assert(out@ =~= old(out)@ + header_text(generated@));
}

/// The line that names the process and the faulting thread.
pub open spec fn process_line(cmd: Seq<u8>, pid: u32, tid: u32) -> Seq<u8> {
    utf8("Process: "@) + cmd + utf8(" (PID: "@) + decimal(pid as nat) + utf8(", TID: "@) + decimal(
        tid as nat,
    ) + utf8(")\n"@)
}

/// The line that names the signal.
pub open spec fn signal_line(signal: i32) -> Seq<u8> {
    utf8("Signal:  "@) + utf8(signal_name_text(signal as int)) + utf8(" ("@) + signed_decimal(
        signal as int,
    ) + utf8(")\n"@)
}

/// The line that names the signal code.
pub open spec fn code_line(signal: i32, si_code: i32) -> Seq<u8> {
    utf8("Code:    "@) + utf8(si_code_name_text(signal as int, si_code as int)) + utf8(" ("@)
        + signed_decimal(si_code as int) + utf8(")\n"@)
}

/// The line that gives the fault address; nothing for address 0.
pub open spec fn fault_line(fault_addr: u64) -> Seq<u8> {
    if fault_addr != 0 {
        utf8("Fault:   0x"@) + hex_fixed(fault_addr as int, 16) + utf8("\n"@)
    } else {
        Seq::empty()
    }
}

/// Process, signal, code and fault address.
#[verifier::opaque]
pub open spec fn identity_text(
    cmd: Seq<u8>,
    pid: u32,
    tid: u32,
    signal: i32,
    si_code: i32,
    fault_addr: u64,
) -> Seq<u8> {
    process_line(cmd, pid, tid) + signal_line(signal) + code_line(signal, si_code) + fault_line(
        fault_addr,
    )
}

/// Appends process, signal, code and fault address.
fn push_identity(
    out: &mut Vec<u8>,
    cmd: &[u8],
    pid: u32,
    tid: u32,
    signal: i32,
    si_code: i32,
    fault_addr: u64,
)
    ensures
        final(out)@ == old(out)@ + identity_text(cmd@, pid, tid, signal, si_code, fault_addr),
{
    reveal(identity_text);
    push_str(out, "Process: ");
    push_bytes(out, cmd);
    push_str(out, " (PID: ");
    push_decimal(out, pid as u64);
    push_str(out, ", TID: ");
    push_decimal(out, tid as u64);
    push_str(out, ")\n");
    assert(out@ =~= old(out)@ + process_line(cmd@, pid, tid));
    let ghost a = out@;
    push_str(out, "Signal:  ");
    push_str(out, signal_name(signal));
    push_str(out, " (");
    push_signed_decimal(out, signal as i64);
    push_str(out, ")\n");
    assert(out@ =~= a + signal_line(signal));
    let ghost b = out@;
    push_str(out, "Code:    ");
    push_str(out, si_code_name(signal, si_code));
    push_str(out, " (");
    push_signed_decimal(out, si_code as i64);
    push_str(out, ")\n");
    assert(out@ =~= b + code_line(signal, si_code));
    let ghost c = out@;
    if fault_addr != 0 {
        push_str(out, "Fault:   0x");
        push_hex(out, fault_addr, 16);
        push_str(out, "\n");
    }
    assert(out@ =~= c + fault_line(fault_addr));
    assert(out@ =~= old(out)@ + identity_text(cmd@, pid, tid, signal, si_code, fault_addr));
}

/// The line that gives the exit code, once it is known.
#[verifier::opaque]
pub open spec fn exit_line(exit_code: Option<u32>) -> Seq<u8> {
    match exit_code {
        Some(code) => utf8("Exit:    "@) + decimal(code as nat) + utf8("\n"@),
        None => Seq::empty(),
    }
}

/// Appends the line that gives the exit code.
fn push_exit(out: &mut Vec<u8>, exit_code: Option<u32>)
    ensures
        final(out)@ == old(out)@ + exit_line(exit_code),
{
    reveal(exit_line);
    match exit_code {
        Some(code) => {
            push_str(out, "Exit:    ");
            push_decimal(out, code as u64);
            push_str(out, "\n");
        },
        None => {},
    }
    assert(out@ =~= old(out)@ + exit_line(exit_code));
}

/// The section that names the detected runtime.
#[verifier::opaque]
pub open spec fn runtime_text(name: Seq<char>) -> Seq<u8> {
    utf8("\n"@) + utf8("Detected Runtime: "@) + utf8(name) + utf8("\n"@)
}

/// Appends the section that names the detected runtime.
fn push_runtime(out: &mut Vec<u8>, name: &str)
    ensures
        final(out)@ == old(out)@ + runtime_text(name@),
{
    reveal(runtime_text);
    push_str(out, "\n");
    push_str(out, "Detected Runtime: ");
    push_str(out, name);
    push_str(out, "\n");
    assert(out@ =~= old(out)@ + runtime_text(name@));
}

/// One line of the register section: two registers as 16 hex digits each.
#[verifier::opaque]
pub open spec fn register_line(left: Seq<char>, a: u64, right: Seq<char>, b: u64) -> Seq<u8> {
    utf8("  "@) + utf8(left) + utf8("0x"@) + hex_fixed(a as int, 16) + utf8("  "@) + utf8(right)
        + utf8("0x"@) + hex_fixed(b as int, 16) + utf8("\n"@)
}

/// Appends one line of the register section.
fn push_register_line(out: &mut Vec<u8>, left: &str, a: u64, right: &str, b: u64)
    ensures
        final(out)@ == old(out)@ + register_line(left@, a, right@, b),
{
    reveal(register_line);
    push_str(out, "  ");
    push_str(out, left);
    push_str(out, "0x");
    push_hex(out, a, 16);
    push_str(out, "  ");
    push_str(out, right);
    push_str(out, "0x");
    push_hex(out, b, 16);
    push_str(out, "\n");
    assert(out@ =~= old(out)@ + register_line(left@, a, right@, b));
}

/// The register section: the eighteen registers, two to a line.
#[verifier::opaque]
pub open spec fn registers_text(r: Registers) -> Seq<u8> {
    utf8("\n"@) + utf8("Registers\n"@) + utf8("---------\n"@)
        + register_line("RIP: "@, r.rip, "RFLAGS: "@, r.rflags)
        + register_line("RSP: "@, r.rsp, "RBP:    "@, r.rbp)
        + register_line("RAX: "@, r.rax, "RBX:    "@, r.rbx)
        + register_line("RCX: "@, r.rcx, "RDX:    "@, r.rdx)
        + register_line("RSI: "@, r.rsi, "RDI:    "@, r.rdi)
        + register_line("R8:  "@, r.r8, "R9:     "@, r.r9)
        + register_line("R10: "@, r.r10, "R11:    "@, r.r11)
        + register_line("R12: "@, r.r12, "R13:    "@, r.r13)
        + register_line("R14: "@, r.r14, "R15:    "@, r.r15)
}

/// Appends the register section.
fn push_registers(out: &mut Vec<u8>, r: &Registers)
    ensures
        final(out)@ == old(out)@ + registers_text(*r),
{
    push_str(out, "\n");
    push_str(out, "Registers\n");
    push_str(out, "---------\n");
    let ghost p0 = utf8("\n"@) + utf8("Registers\n"@) + utf8("---------\n"@);
    assert(out@ =~= old(out)@ + p0);
    push_register_line(out, "RIP: ", r.rip, "RFLAGS: ", r.rflags);
    let ghost p1 = p0 + register_line("RIP: "@, r.rip, "RFLAGS: "@, r.rflags);
    assert(out@ =~= old(out)@ + p1);
    push_register_line(out, "RSP: ", r.rsp, "RBP:    ", r.rbp);
    let ghost p2 = p1 + register_line("RSP: "@, r.rsp, "RBP:    "@, r.rbp);
    assert(out@ =~= old(out)@ + p2);
    push_register_line(out, "RAX: ", r.rax, "RBX:    ", r.rbx);
    let ghost p3 = p2 + register_line("RAX: "@, r.rax, "RBX:    "@, r.rbx);
    assert(out@ =~= old(out)@ + p3);
    push_register_line(out, "RCX: ", r.rcx, "RDX:    ", r.rdx);
    let ghost p4 = p3 + register_line("RCX: "@, r.rcx, "RDX:    "@, r.rdx);
    assert(out@ =~= old(out)@ + p4);
    push_register_line(out, "RSI: ", r.rsi, "RDI:    ", r.rdi);
    let ghost p5 = p4 + register_line("RSI: "@, r.rsi, "RDI:    "@, r.rdi);
    assert(out@ =~= old(out)@ + p5);
    push_register_line(out, "R8:  ", r.r8, "R9:     ", r.r9);
    let ghost p6 = p5 + register_line("R8:  "@, r.r8, "R9:     "@, r.r9);
    assert(out@ =~= old(out)@ + p6);
    push_register_line(out, "R10: ", r.r10, "R11:    ", r.r11);
    let ghost p7 = p6 + register_line("R10: "@, r.r10, "R11:    "@, r.r11);
    assert(out@ =~= old(out)@ + p7);
    push_register_line(out, "R12: ", r.r12, "R13:    ", r.r13);
    let ghost p8 = p7 + register_line("R12: "@, r.r12, "R13:    "@, r.r13);
    assert(out@ =~= old(out)@ + p8);
    push_register_line(out, "R14: ", r.r14, "R15:    ", r.r15);
    let ghost p9 = p8 + register_line("R14: "@, r.r14, "R15:    "@, r.r15);
    assert(out@ =~= old(out)@ + p9);
    assert(registers_text(*r) == p9) by {
        reveal(registers_text);
    }
}

/// The line of frame `index` of the user stack.
pub open spec fn frame_line(index: nat, ip: u64) -> Seq<u8> {
    utf8("  #"@) + decimal_width2(index) + utf8(": 0x"@) + hex_fixed(ip as int, 16) + utf8("\n"@)
}

/// The lines of the frames from `from` on, up to the first whose instruction
/// pointer is 0.
pub open spec fn frame_lines(frames: Seq<u64>, from: int) -> Seq<u8>
    decreases frames.len() - from,
{
    if from < 0 || from >= frames.len() || frames[from] == 0 {
        Seq::empty()
    } else {
        frame_line(from as nat, frames[from]) + frame_lines(frames, from + 1)
    }
}

/// The user-stack section.
#[verifier::opaque]
pub open spec fn stack_text(frames: Seq<u64>) -> Seq<u8> {
    utf8("\n"@) + utf8("User Stack:\n"@) + utf8("---------\n"@) + frame_lines(frames, 0)
}

/// Appends the user-stack section.
fn push_stack(out: &mut Vec<u8>, frames: &[u64])
    ensures
        final(out)@ == old(out)@ + stack_text(frames@),
{
    reveal(stack_text);
    push_str(out, "\n");
    push_str(out, "User Stack:\n");
    push_str(out, "---------\n");
    let ghost head = out@;
    let n: usize = frames.len();
    let mut i: usize = 0;
    assert(out@ + frame_lines(frames@, 0) =~= head + frame_lines(frames@, 0));
    while i < n && frames[i] != 0
        invariant
            i <= n,
            n == frames@.len(),
            out@ + frame_lines(frames@, i as int) == head + frame_lines(frames@, 0),
        decreases n - i,
    {
        let ghost before = out@;
        push_str(out, "  #");
        push_decimal_width2(out, i as u64);
        push_str(out, ": 0x");
        push_hex(out, frames[i], 16);
        push_str(out, "\n");
        assert(out@ =~= before + frame_line(i as nat, frames@[i as int]));
        assert(out@ + frame_lines(frames@, i + 1) =~= before + frame_lines(frames@, i as int));
        i = i + 1;
    }
    assert(out@ + frame_lines(frames@, i as int) =~= out@);
    assert(out@ =~= old(out)@ + stack_text(frames@));
}

/// The address `offset` bytes above `rsp`, wrapping at the end of the
/// address space.
pub open spec fn row_address(rsp: u64, offset: int) -> u64 {
    if rsp + offset > u64::MAX {
        (rsp + offset - 0x1_0000_0000_0000_0000) as u64
    } else {
        (rsp + offset) as u64
    }
}

/// The byte that shows `b` in the text column: `b` itself where it is a
/// printable ASCII character or a space, a dot otherwise.
pub open spec fn shown_byte(b: u8) -> u8 {
    if 0x20 <= b <= 0x7e {
        b
    } else {
        0x2e
    }
}

/// The hex cells of the bytes of `chunk` from `from` on: two digits each,
/// with a space before every even cell.
pub open spec fn hex_cells(chunk: Seq<u8>, from: int) -> Seq<u8>
    decreases chunk.len() - from,
{
    if from < 0 || from >= chunk.len() {
        Seq::empty()
    } else {
        (if from % 2 == 0 {
            seq![0x20u8]
        } else {
            Seq::empty()
        }) + hex_fixed(chunk[from] as int, 2) + hex_cells(chunk, from + 1)
    }
}

/// The blank cells that fill a row from cell `from` to cell 16.
pub open spec fn blank_cells(from: int) -> Seq<u8>
    decreases 16 - from,
{
    if from < 0 || from >= 16 {
        Seq::empty()
    } else {
        (if from % 2 == 0 {
            seq![0x20u8]
        } else {
            Seq::empty()
        }) + seq![0x20u8, 0x20u8] + blank_cells(from + 1)
    }
}

/// The text column of a row.
pub open spec fn shown_bytes(chunk: Seq<u8>) -> Seq<u8> {
    Seq::new(chunk.len(), |i: int| shown_byte(chunk[i]))
}

/// One row of the raw-stack section: address, up to 16 hex cells, and the
/// same bytes as text.
pub open spec fn dump_row(addr: u64, chunk: Seq<u8>) -> Seq<u8> {
    utf8("  0x"@) + hex_fixed(addr as int, 16) + utf8(":"@) + hex_cells(chunk, 0) + blank_cells(
        chunk.len() as int,
    ) + utf8("  |"@) + shown_bytes(chunk) + utf8("|\n"@)
}

/// The end of the row that starts at `offset`.
pub open spec fn row_end(len: int, offset: int) -> int {
    if offset + 16 <= len {
        offset + 16
    } else {
        len
    }
}

/// The rows of `data` from `offset` on, 16 bytes to a row.
pub open spec fn dump_rows(rsp: u64, data: Seq<u8>, offset: int) -> Seq<u8>
    decreases
            (if offset < data.len() {
                data.len() - offset
            } else {
                0
            }),
{
    if offset < 0 || offset >= data.len() {
        Seq::empty()
    } else {
        dump_row(
            row_address(rsp, offset),
            data.subrange(offset, row_end(data.len() as int, offset)),
        ) + dump_rows(rsp, data, offset + 16)
    }
}

/// The raw-stack section: a line that gives length and start address, then
/// the rows.
#[verifier::opaque]
pub open spec fn dump_text(rsp: u64, data: Seq<u8>) -> Seq<u8> {
    utf8("\n"@) + utf8("Raw Stack ("@) + decimal(data.len()) + utf8(" bytes from 0x"@) + hex_fixed(
        rsp as int,
        16,
    ) + utf8(")\n"@) + utf8("---------\n"@) + dump_rows(rsp, data, 0)
}

/// Appends one row of the raw-stack section.
fn push_dump_row(out: &mut Vec<u8>, addr: u64, chunk: &[u8])
    requires
        chunk@.len() <= 16,
    ensures
        final(out)@ == old(out)@ + dump_row(addr, chunk@),
{
    push_str(out, "  0x");
    push_hex(out, addr, 16);
    push_str(out, ":");
    let ghost head = out@;
    let n: usize = chunk.len();
    let mut i: usize = 0;
    assert(out@ + hex_cells(chunk@, 0) =~= head + hex_cells(chunk@, 0));
    while i < n
        invariant
            i <= n,
            n == chunk@.len(),
            out@ + hex_cells(chunk@, i as int) == head + hex_cells(chunk@, 0),
        decreases n - i,
    {
        let ghost before = out@;
        if i % 2 == 0 {
            out.push(0x20u8);
        }
        push_hex(out, chunk[i] as u64, 2);
        assert(out@ + hex_cells(chunk@, i + 1) =~= before + hex_cells(chunk@, i as int));
        i = i + 1;
    }
    assert(out@ =~= head + hex_cells(chunk@, 0));
    let ghost cells = out@;
    assert(out@ + blank_cells(i as int) =~= cells + blank_cells(n as int));
    while i < 16
        invariant
            n <= i <= 16,
            out@ + blank_cells(i as int) == cells + blank_cells(n as int),
        decreases 16 - i,
    {
        let ghost before = out@;
        if i % 2 == 0 {
            out.push(0x20u8);
        }
        out.push(0x20u8);
        out.push(0x20u8);
        assert(out@ + blank_cells(i + 1) =~= before + blank_cells(i as int));
        i = i + 1;
    }
    assert(out@ =~= cells + blank_cells(n as int));
    push_str(out, "  |");
    let ghost bar = out@;
    let mut j: usize = 0;
    while j < n
        invariant
            j <= n,
            n == chunk@.len(),
            out@ == bar + shown_bytes(chunk@.take(j as int)),
        decreases n - j,
    {
        let b: u8 = chunk[j];
        let shown: u8 = if 0x20 <= b && b <= 0x7e {
            b
        } else {
            0x2e
        };
        out.push(shown);
        j = j + 1;
        assert(out@ =~= bar + shown_bytes(chunk@.take(j as int)));
    }
    assert(chunk@.take(n as int) =~= chunk@);
    push_str(out, "|\n");
    assert(out@ =~= old(out)@ + dump_row(addr, chunk@));
}

/// Appends the raw-stack section.
fn push_dump(out: &mut Vec<u8>, rsp: u64, data: &[u8])
    ensures
        final(out)@ == old(out)@ + dump_text(rsp, data@),
{
    reveal(dump_text);
    let len: usize = data.len();
    push_str(out, "\n");
    push_str(out, "Raw Stack (");
    push_decimal(out, len as u64);
    push_str(out, " bytes from 0x");
    push_hex(out, rsp, 16);
    push_str(out, ")\n");
    push_str(out, "---------\n");
    let ghost head = out@;
    let mut offset: usize = 0;
    assert(out@ + dump_rows(rsp, data@, 0) =~= head + dump_rows(rsp, data@, 0));
    while offset < len
        invariant
            len == data@.len(),
            out@ + dump_rows(rsp, data@, offset as int) == head + dump_rows(rsp, data@, 0),
        decreases len - offset,
    {
        let ghost before = out@;
        let end: usize = if len - offset >= 16 {
            offset + 16
        } else {
            len
        };
        let distance: u64 = offset as u64;
        let addr: u64 = if distance <= u64::MAX - rsp {
            rsp + distance
        } else {
            distance - (u64::MAX - rsp) - 1
        };
        push_dump_row(out, addr, slice_subrange(data, offset, end));
        assert(out@ + dump_rows(rsp, data@, offset + 16) =~= before + dump_rows(
            rsp,
            data@,
            offset as int,
        ));
        proof {
            if end < offset + 16 {
                assert(dump_rows(rsp, data@, offset + 16) =~= dump_rows(rsp, data@, end as int));
            }
        }
        offset = end;
    }
    assert(out@ =~= old(out)@ + dump_text(rsp, data@));
}

/// The lines of the memory map from `from` on, one to a line.
pub open spec fn map_lines(lines: Seq<String>, from: int) -> Seq<u8>
    decreases lines.len() - from,
{
    if from < 0 || from >= lines.len() {
        Seq::empty()
    } else {
        utf8(lines[from]@) + utf8("\n"@) + map_lines(lines, from + 1)
    }
}

/// The memory-map section.
#[verifier::opaque]
pub open spec fn maps_text(lines: Seq<String>) -> Seq<u8> {
    utf8("\n"@) + utf8("Memory Maps\n"@) + utf8("-----------\n"@) + map_lines(lines, 0)
}

/// Appends the memory-map section.
fn push_maps(out: &mut Vec<u8>, lines: &Vec<String>)
    ensures
        final(out)@ == old(out)@ + maps_text(lines@),
{
    reveal(maps_text);
    push_str(out, "\n");
    push_str(out, "Memory Maps\n");
    push_str(out, "-----------\n");
    let ghost head = out@;
    let n: usize = lines.len();
    let mut i: usize = 0;
    assert(out@ + map_lines(lines@, 0) =~= head + map_lines(lines@, 0));
    while i < n
        invariant
            i <= n,
            n == lines@.len(),
            out@ + map_lines(lines@, i as int) == head + map_lines(lines@, 0),
        decreases n - i,
    {
        let ghost before = out@;
        push_str(out, lines[i].as_str());
        push_str(out, "\n");
        assert(out@ + map_lines(lines@, i + 1) =~= before + map_lines(lines@, i as int));
        i = i + 1;
    }
    assert(out@ =~= old(out)@ + maps_text(lines@));
}

/// Whether `b` continues a multi-byte UTF-8 character.
pub open spec fn continuation_byte(b: u8) -> bool {
    0x80 <= b < 0xc0
}

/// The last character boundary of `c` at or before byte `k`.
pub open spec fn char_floor(c: Seq<u8>, k: int) -> int
    decreases k,
{
    if k <= 0 {
        0
    } else if k < c.len() && continuation_byte(c[k]) {
        char_floor(c, k - 1)
    } else {
        k
    }
}

/// What is shown of a text artifact: all of it up to `ARTIFACT_PREVIEW`
/// bytes, else its first `ARTIFACT_PREVIEW` bytes cut back to a character
/// boundary.
pub open spec fn preview_bytes(c: Seq<u8>) -> Seq<u8> {
    if c.len() > ARTIFACT_PREVIEW {
        c.take(char_floor(c, ARTIFACT_PREVIEW as int))
    } else {
        c
    }
}

/// The first `n` bytes of `s` as a line: without the carriage return that
/// stands before a line feed at `n`.
pub open spec fn text_line(s: Seq<u8>, n: int) -> Seq<u8> {
    if 0 < n < s.len() && s[n - 1] == 13 {
        s.take(n - 1)
    } else {
        s.take(n)
    }
}

/// The lines of `s`, each indented by four spaces and ended by a line feed.
/// A line ends at a line feed or at the end of `s`; a carriage return before
/// the line feed is dropped.
pub open spec fn indented_lines(s: Seq<u8>) -> Seq<u8>
    decreases s.len(),
{
    if s.len() == 0 {
        Seq::empty()
    } else {
        let n = run_len(s, 10);
        utf8("    "@) + text_line(s, n) + utf8("\n"@) + (if 0 <= n < s.len() {
            indented_lines(s.skip(n + 1))
        } else {
            Seq::empty()
        })
    }
}

/// Appends the lines of `s`, indented.
fn push_indented_lines(out: &mut Vec<u8>, s: &[u8])
    ensures
        final(out)@ == old(out)@ + indented_lines(s@),
{
    let len: usize = s.len();
    let ghost head = out@;
    let mut pos: usize = 0;
    assert(s@.skip(0) =~= s@);
    while pos < len
        invariant
            pos <= len,
            len == s@.len(),
            out@ + indented_lines(s@.skip(pos as int)) == head + indented_lines(s@),
        decreases len - pos,
    {
        let ghost before = out@;
        let ghost rest = s@.skip(pos as int);
        let mut end: usize = pos;
        while end < len && s[end] != 10
            invariant
                pos <= end <= len,
                len == s@.len(),
                forall|k: int| pos <= k < end ==> s@[k] != 10,
            decreases len - end,
        {
            end = end + 1;
        }
        proof {
            assert forall|k: int| 0 <= k < end - pos implies rest[k] != 10 by {
                assert(rest[k] == s@[pos + k]);
            }
            lemma_run_len_is(rest, 10, end - pos);
        }
        let stop: usize = if end < len && end > pos && s[end - 1] == 13 {
            end - 1
        } else {
            end
        };
        push_str(out, "    ");
        push_bytes(out, slice_subrange(s, pos, stop));
        push_str(out, "\n");
        proof {
            assert(s@.subrange(pos as int, stop as int) =~= text_line(rest, end - pos));
            if end < len {
                assert(rest.skip(end - pos + 1) =~= s@.skip(end + 1));
                assert(out@ + indented_lines(s@.skip(end + 1)) =~= before + indented_lines(rest));
            } else {
                assert(s@.skip(len as int) =~= Seq::<u8>::empty());
                assert(out@ + indented_lines(s@.skip(len as int)) =~= before + indented_lines(
                    rest,
                ));
            }
        }
        pos = if end < len {
            end + 1
        } else {
            end
        };
    }
    assert(s@.skip(len as int) =~= Seq::<u8>::empty());
    assert(out@ =~= old(out)@ + indented_lines(s@));
}

/// The note that follows a preview that was cut.
pub open spec fn truncation_note(len: nat) -> Seq<u8> {
    if len > ARTIFACT_PREVIEW {
        utf8("    ... ("@) + decimal(len) + utf8(" bytes total, truncated)\n"@)
    } else {
        Seq::empty()
    }
}

/// What is said of the content of an artifact: text is shown indented, up to
/// the preview length; of anything else only the length is given.
pub open spec fn content_text(content: Option<Vec<u8>>) -> Seq<u8> {
    match content {
        None => utf8("  (content not available)\n"@),
        Some(c) => if valid_utf8(c@) {
            utf8("\n"@) + indented_lines(preview_bytes(c@)) + truncation_note(c@.len())
        } else {
            utf8("  (binary content, "@) + decimal(c@.len()) + utf8(" bytes)\n"@)
        },
    }
}

/// The entry of one artifact.
pub open spec fn artifact_text(a: ArtifactData) -> Seq<u8> {
    utf8("  File: "@) + utf8(a.filename@) + utf8(" ("@) + utf8(a.full_path@) + utf8(")\n"@)
        + content_text(a.content)
}

/// The entries of the artifacts from `from` on.
pub open spec fn artifact_items(items: Seq<ArtifactData>, from: int) -> Seq<u8>
    decreases items.len() - from,
{
    if from < 0 || from >= items.len() {
        Seq::empty()
    } else {
        artifact_text(items[from]) + artifact_items(items, from + 1)
    }
}

/// The artifacts section.
#[verifier::opaque]
pub open spec fn artifacts_text(items: Seq<ArtifactData>) -> Seq<u8> {
    utf8("\n"@) + utf8("Runtime Artifacts\n"@) + utf8("-----------------\n"@) + artifact_items(
        items,
        0,
    )
}

/// Appends what is said of the content of an artifact.
fn push_content(out: &mut Vec<u8>, content: &Option<Vec<u8>>)
    ensures
        final(out)@ == old(out)@ + content_text(*content),
{
    match content {
        None => {
            push_str(out, "  (content not available)\n");
        },
        Some(c) => {
            let len: usize = c.len();
            if str_from_utf8(c.as_slice()).is_some() {
                push_str(out, "\n");
                let ghost a = out@;
                if len > ARTIFACT_PREVIEW {
                    let mut k: usize = ARTIFACT_PREVIEW;
                    while k > 0 && 0x80 <= c[k] && c[k] < 0xc0
                        invariant
                            k <= ARTIFACT_PREVIEW < len,
                            len == c@.len(),
                            char_floor(c@, ARTIFACT_PREVIEW as int) == char_floor(c@, k as int),
                        decreases k,
                    {
                        k = k - 1;
                    }
                    push_indented_lines(out, slice_subrange(c.as_slice(), 0, k));
                    assert(c@.subrange(0, k as int) =~= preview_bytes(c@));
                    let ghost b = out@;
                    push_str(out, "    ... (");
                    push_decimal(out, len as u64);
                    push_str(out, " bytes total, truncated)\n");
                    assert(out@ =~= b + truncation_note(c@.len()));
                } else {
                    push_indented_lines(out, c.as_slice());
                    assert(out@ =~= out@ + truncation_note(c@.len()));
                }
                assert(out@ =~= old(out)@ + content_text(*content));
            } else {
                push_str(out, "  (binary content, ");
                push_decimal(out, len as u64);
                push_str(out, " bytes)\n");
                assert(out@ =~= old(out)@ + content_text(*content));
            }
        },
    }
}

/// Appends the artifacts section.
fn push_artifacts(out: &mut Vec<u8>, items: &Vec<ArtifactData>)
    ensures
        final(out)@ == old(out)@ + artifacts_text(items@),
{
    reveal(artifacts_text);
    push_str(out, "\n");
    push_str(out, "Runtime Artifacts\n");
    push_str(out, "-----------------\n");
    let ghost head = out@;
    let n: usize = items.len();
    let mut i: usize = 0;
    assert(out@ + artifact_items(items@, 0) =~= head + artifact_items(items@, 0));
    while i < n
        invariant
            i <= n,
            n == items@.len(),
            out@ + artifact_items(items@, i as int) == head + artifact_items(items@, 0),
        decreases n - i,
    {
        let ghost before = out@;
        push_str(out, "  File: ");
        push_str(out, items[i].filename.as_str());
        push_str(out, " (");
        push_str(out, items[i].full_path.as_str());
        push_str(out, ")\n");
        push_content(out, &items[i].content);
        assert(out@ =~= before + artifact_text(items@[i as int]));
        assert(out@ + artifact_items(items@, i + 1) =~= before + artifact_items(items@, i as int));
        i = i + 1;
    }
    assert(out@ =~= old(out)@ + artifacts_text(items@));
}

/// The user-stack section of a report on stored data: present where frames
/// were stored.
pub open spec fn stored_stack_text(frames: Seq<u64>) -> Seq<u8> {
    if frames.len() > 0 {
        stack_text(frames)
    } else {
        Seq::empty()
    }
}

/// The raw-stack section of a report on stored data.
pub open spec fn stored_dump_text(dump: Option<(u64, Vec<u8>)>) -> Seq<u8> {
    match dump {
        Some((rsp, data)) => dump_text(rsp, data@),
        None => Seq::empty(),
    }
}

/// The memory-map section of a report on stored data: present where lines
/// were stored.
pub open spec fn stored_maps_text(lines: Seq<String>) -> Seq<u8> {
    if lines.len() > 0 {
        maps_text(lines)
    } else {
        Seq::empty()
    }
}

/// The artifacts section of a report on stored data: present where there are
/// artifacts.
pub open spec fn stored_artifacts_text(items: Seq<ArtifactData>) -> Seq<u8> {
    if items.len() > 0 {
        artifacts_text(items)
    } else {
        Seq::empty()
    }
}

/// Everything that follows the header in the report on a stored crash.
pub open spec fn db_report_body(data: CrashReportData) -> Seq<u8> {
    identity_text(utf8(data.cmd@), data.pid, data.tid, data.signal, data.si_code, data.fault_addr)
        + exit_line(data.exit_code) + runtime_text(data.runtime@) + registers_text(data.registers)
        + stored_stack_text(data.stack_frames@) + stored_dump_text(data.stack_dump)
        + stored_maps_text(data.memory_maps@) + stored_artifacts_text(data.artifacts@)
}

/// The report on a stored crash, written at the time `generated`.
pub open spec fn db_report_text(data: CrashReportData, generated: Seq<char>) -> Seq<u8> {
    header_text(generated) + db_report_body(data)
}

/// The runtime section of a report on a live event: present where the
/// process is known.
pub open spec fn live_runtime_text(map: Option<ProcessInfo>) -> Seq<u8> {
    match map {
        Some(info) => runtime_text(info.runtime.name()),
        None => Seq::empty(),
    }
}

/// The user-stack section of a report on a live event: present where a stack
/// trace was found.
pub open spec fn live_stack_text(frames: Option<Seq<u64>>) -> Seq<u8> {
    match frames {
        Some(frames) => stack_text(frames),
        None => Seq::empty(),
    }
}

/// The raw-stack section of a report on a live event.
pub open spec fn live_dump_text(dump: Option<StackDump>) -> Seq<u8> {
    match dump {
        Some(dump) => dump_text(dump.rsp, dump.captured()),
        None => Seq::empty(),
    }
}

/// The memory-map section of a report on a live event: present where the
/// process is known.
pub open spec fn live_maps_text(map: Option<ProcessInfo>) -> Seq<u8> {
    match map {
        Some(info) => maps_text(info.maps@),
        None => Seq::empty(),
    }
}

/// What the console summary and the full report on a live event share after
/// the header: identity, runtime, registers and user stack.
pub open spec fn live_summary_body(
    event: SignalDeliverEvent,
    frames: Option<Seq<u64>>,
    map: Option<ProcessInfo>,
) -> Seq<u8> {
    identity_text(
        command_bytes(event.cmd@),
        event.pid,
        event.tid,
        event.signal,
        event.si_code,
        event.fault_addr,
    ) + live_runtime_text(map) + registers_text(Registers::of_event(event)) + live_stack_text(
        frames,
    )
}

/// The console summary of a live event: the report without raw stack and
/// memory map.
pub open spec fn console_text(
    event: SignalDeliverEvent,
    frames: Option<Seq<u64>>,
    map: Option<ProcessInfo>,
    generated: Seq<char>,
) -> Seq<u8> {
    header_text(generated) + live_summary_body(event, frames, map)
}

/// The report on a live event, written at the time `generated`.
pub open spec fn live_report_text(
    event: SignalDeliverEvent,
    frames: Option<Seq<u64>>,
    dump: Option<StackDump>,
    map: Option<ProcessInfo>,
    generated: Seq<char>,
) -> Seq<u8> {
    header_text(generated) + live_summary_body(event, frames, map) + live_dump_text(dump)
        + live_maps_text(map)
}

/// The frames of an optional stack trace.
pub open spec fn frames_of(stack_trace: Option<&Vec<u64>>) -> Option<Seq<u64>> {
    match stack_trace {
        Some(frames) => Some(frames@),
        None => None,
    }
}

/// The value behind an optional reference.
pub open spec fn deref_opt<T>(o: Option<&T>) -> Option<T> {
    match o {
        Some(v) => Some(*v),
        None => None,
    }
}

/// Appends the report on a stored crash, with `generated` as the time of
/// writing.
pub fn write_report_from_db_at(w: &mut Vec<u8>, data: &CrashReportData, generated: &str)
    ensures
        final(w)@ == old(w)@ + db_report_text(*data, generated@),
{
    push_header(w, generated);
    let ghost p0 = header_text(generated@);
    push_identity(
        w,
        str_bytes(data.cmd.as_str()),
        data.pid,
        data.tid,
        data.signal,
        data.si_code,
        data.fault_addr,
    );
    let ghost i1 = identity_text(
        utf8(data.cmd@),
        data.pid,
        data.tid,
        data.signal,
        data.si_code,
        data.fault_addr,
    );
    assert(w@ =~= old(w)@ + p0 + i1);
    push_exit(w, data.exit_code);
    let ghost i2 = i1 + exit_line(data.exit_code);
    assert(w@ =~= old(w)@ + p0 + i2);
    push_runtime(w, data.runtime.as_str());
    let ghost i3 = i2 + runtime_text(data.runtime@);
    assert(w@ =~= old(w)@ + p0 + i3);
    push_registers(w, &data.registers);
    let ghost i4 = i3 + registers_text(data.registers);
    assert(w@ =~= old(w)@ + p0 + i4);
    if data.stack_frames.len() > 0 {
        push_stack(w, data.stack_frames.as_slice());
    }
    let ghost i5 = i4 + stored_stack_text(data.stack_frames@);
    assert(w@ =~= old(w)@ + p0 + i5);
    match &data.stack_dump {
        Some((rsp, dump)) => {
            push_dump(w, *rsp, dump.as_slice());
        },
        None => {},
    }
    let ghost i6 = i5 + stored_dump_text(data.stack_dump);
    assert(w@ =~= old(w)@ + p0 + i6);
    if data.memory_maps.len() > 0 {
        push_maps(w, &data.memory_maps);
    }
    let ghost i7 = i6 + stored_maps_text(data.memory_maps@);
    assert(w@ =~= old(w)@ + p0 + i7);
    if data.artifacts.len() > 0 {
        push_artifacts(w, &data.artifacts);
    }
    let ghost i8 = i7 + stored_artifacts_text(data.artifacts@);
    assert(w@ =~= old(w)@ + p0 + i8);
    assert(i8 == db_report_body(*data));
    assert(w@ =~= old(w)@ + db_report_text(*data, generated@));
}

/// Appends what the console summary and the full report on a live event
/// share after the header.
fn push_live_summary(
    w: &mut Vec<u8>,
    event: &SignalDeliverEvent,
    stack_trace: Option<&Vec<u64>>,
    map: Option<&ProcessInfo>,
)
    ensures
        final(w)@ == old(w)@ + live_summary_body(*event, frames_of(stack_trace), deref_opt(map)),
{
    let cmd: String = event.command();
    push_identity(
        w,
        str_bytes(cmd.as_str()),
        event.pid,
        event.tid,
        event.signal,
        event.si_code,
        event.fault_addr,
    );
    let ghost i1 = identity_text(
        command_bytes(event.cmd@),
        event.pid,
        event.tid,
        event.signal,
        event.si_code,
        event.fault_addr,
    );
    assert(w@ =~= old(w)@ + i1);
    match map {
        Some(info) => {
            push_runtime(w, info.runtime.as_str());
        },
        None => {},
    }
    let ghost i2 = i1 + live_runtime_text(deref_opt(map));
    assert(w@ =~= old(w)@ + i2);
    let regs = Registers::from_event(event);
    push_registers(w, &regs);
    let ghost i3 = i2 + registers_text(Registers::of_event(*event));
    assert(w@ =~= old(w)@ + i3);
    match stack_trace {
        Some(frames) => {
            push_stack(w, frames.as_slice());
        },
        None => {},
    }
    let ghost i4 = i3 + live_stack_text(frames_of(stack_trace));
    assert(w@ =~= old(w)@ + i4);
}

/// Appends the report on a live event, with `generated` as the time of
/// writing.
pub fn write_report_at(
    w: &mut Vec<u8>,
    event: &SignalDeliverEvent,
    stack_trace: Option<&Vec<u64>>,
    stack_dump: Option<&StackDump>,
    map: Option<&ProcessInfo>,
    generated: &str,
)
    ensures
        final(w)@ == old(w)@ + live_report_text(
            *event,
            frames_of(stack_trace),
            deref_opt(stack_dump),
            deref_opt(map),
            generated@,
        ),
{
    push_header(w, generated);
    let ghost p0 = header_text(generated@);
    push_live_summary(w, event, stack_trace, map);
    let ghost p1 = p0 + live_summary_body(*event, frames_of(stack_trace), deref_opt(map));
    assert(w@ =~= old(w)@ + p1);
    match stack_dump {
        Some(dump) => {
            push_dump(w, dump.rsp, dump.captured_bytes());
        },
        None => {},
    }
    let ghost p2 = p1 + live_dump_text(deref_opt(stack_dump));
    assert(w@ =~= old(w)@ + p2);
    match map {
        Some(info) => {
            push_maps(w, &info.maps);
        },
        None => {},
    }
    let ghost p3 = p2 + live_maps_text(deref_opt(map));
    assert(w@ =~= old(w)@ + p3);
}

/// The console summary of a live event, with `generated` as the time of
/// writing: the report without raw stack and memory map.
pub fn console_summary_at(
    event: &SignalDeliverEvent,
    stack_trace: Option<&Vec<u64>>,
    process_info: Option<&ProcessInfo>,
    generated: &str,
) -> (text: Vec<u8>)
    ensures
        text@ == console_text(*event, frames_of(stack_trace), deref_opt(process_info), generated@),
{
    let mut w: Vec<u8> = Vec::new();
    push_header(&mut w, generated);
    push_live_summary(&mut w, event, stack_trace, process_info);
    assert(w@ =~= console_text(
        *event,
        frames_of(stack_trace),
        deref_opt(process_info),
        generated@,
    ));
    w
}

/// The name of the report file of a crash of `cmd` with process id `pid`,
/// written at the time `stamp`.
pub open spec fn report_file_name_bytes(cmd: Seq<u8>, pid: u32, stamp: Seq<char>) -> Seq<u8> {
    utf8("crash_"@) + cmd + utf8("_"@) + decimal(pid as nat) + utf8("_"@) + utf8(stamp) + utf8(
        ".txt"@,
    )
}

/// The name of the report file of a crash of `cmd` with process id `pid`,
/// written at the time `stamp`.
pub fn report_file_name(cmd: &[u8], pid: u32, stamp: &str) -> (name: Vec<u8>)
    ensures
        name@ == report_file_name_bytes(cmd@, pid, stamp@),
{
    let mut name: Vec<u8> = Vec::new();
    push_str(&mut name, "crash_");
    push_bytes(&mut name, cmd);
    push_str(&mut name, "_");
    push_decimal(&mut name, pid as u64);
    push_str(&mut name, "_");
    push_str(&mut name, stamp);
    push_str(&mut name, ".txt");
    assert(name@ =~= report_file_name_bytes(cmd@, pid, stamp@));
    name
}

/// The current time in UTC as RFC 3339 text, from `chrono::Utc::now` and
/// `DateTime::to_rfc3339`. The clock decides what it is: nothing is claimed
/// of the result. `Utc::now` panics where the system clock stands before
/// the Unix epoch.
#[verifier::external_body]
fn utc_now_rfc3339() -> (text: String) {
    chrono::Utc::now().to_rfc3339()
}

/// The current time in UTC as year, month, day, an underscore, hour, minute
/// and second, from `chrono::Utc::now` and `DateTime::format`. The clock
/// decides what it is: nothing is claimed of the result. `Utc::now` panics
/// where the system clock stands before the Unix epoch.
#[verifier::external_body]
fn utc_now_file_stamp() -> (text: String) {
    chrono::Utc::now().format("%Y%m%d_%H%M%S").to_string()
}

/// A report ready to be written to disk.
#[derive(Clone, Debug, PartialEq, Eq)]
pub struct SavedReport {
    /// The name of the file inside the output directory, as UTF-8.
    pub file_name: Vec<u8>,
    /// The text of the report, as UTF-8.
    pub contents: Vec<u8>,
}

/// Appends the report on a live event, written now.
pub fn write_report(
    w: &mut Vec<u8>,
    event: &SignalDeliverEvent,
    stack_trace: Option<&Vec<u64>>,
    stack_dump: Option<&StackDump>,
    map: Option<&ProcessInfo>,
)
    ensures
        exists|generated: Seq<char>|
            final(w)@ == old(w)@ + #[trigger] live_report_text(
                *event,
                frames_of(stack_trace),
                deref_opt(stack_dump),
                deref_opt(map),
                generated,
            ),
{
    let now: String = utc_now_rfc3339();
    write_report_at(w, event, stack_trace, stack_dump, map, now.as_str());
}

/// Appends the report on a stored crash, written now.
pub fn write_report_from_db(w: &mut Vec<u8>, data: &CrashReportData)
    ensures
        exists|generated: Seq<char>|
            final(w)@ == old(w)@ + #[trigger] db_report_text(*data, generated),
{
    let now: String = utc_now_rfc3339();
    write_report_from_db_at(w, data, now.as_str());
}

/// The console summary of a live event, written now.
pub fn print_to_console(
    event: &SignalDeliverEvent,
    stack_trace: Option<&Vec<u64>>,
    process_info: Option<&ProcessInfo>,
) -> (text: Vec<u8>)
    ensures
        exists|generated: Seq<char>|
            text@ == #[trigger] console_text(
                *event,
                frames_of(stack_trace),
                deref_opt(process_info),
                generated,
            ),
{
    let now: String = utc_now_rfc3339();
    console_summary_at(event, stack_trace, process_info, now.as_str())
}

/// The report file of a stored crash, named and written now.
pub fn save_from_db(data: &CrashReportData) -> (saved: SavedReport)
    ensures
        exists|stamp: Seq<char>|
            saved.file_name@ == #[trigger] report_file_name_bytes(utf8(data.cmd@), data.pid, stamp),
        exists|generated: Seq<char>|
            saved.contents@ == #[trigger] db_report_text(*data, generated),
{
    let stamp: String = utc_now_file_stamp();
    let file_name: Vec<u8> = report_file_name(
        str_bytes(data.cmd.as_str()),
        data.pid,
        stamp.as_str(),
    );
    let mut contents: Vec<u8> = Vec::new();
    write_report_from_db(&mut contents, data);
    assert(forall|g: Seq<char>|
        Seq::<u8>::empty() + #[trigger] db_report_text(*data, g) =~= db_report_text(*data, g));
    SavedReport { file_name, contents }
}

/// The report file of a live event, named and written now.
pub fn save_report(
    event: &SignalDeliverEvent,
    stack_trace: Option<&Vec<u64>>,
    stack_dump: Option<&StackDump>,
    map: Option<&ProcessInfo>,
) -> (saved: SavedReport)
    ensures
        exists|stamp: Seq<char>|
            saved.file_name@ == #[trigger] report_file_name_bytes(
                command_bytes(event.cmd@),
                event.pid,
                stamp,
            ),
        exists|generated: Seq<char>|
            saved.contents@ == #[trigger] live_report_text(
                *event,
                frames_of(stack_trace),
                deref_opt(stack_dump),
                deref_opt(map),
                generated,
            ),
{
    let stamp: String = utc_now_file_stamp();
    let cmd: String = event.command();
    let file_name: Vec<u8> = report_file_name(str_bytes(cmd.as_str()), event.pid, stamp.as_str());
    let mut contents: Vec<u8> = Vec::new();
    write_report(&mut contents, event, stack_trace, stack_dump, map);
    assert(forall|g: Seq<char>|
        Seq::<u8>::empty() + #[trigger] live_report_text(
            *event,
            frames_of(stack_trace),
            deref_opt(stack_dump),
            deref_opt(map),
            g,
        ) =~= live_report_text(
            *event,
            frames_of(stack_trace),
            deref_opt(stack_dump),
            deref_opt(map),
            g,
        ));
    SavedReport { file_name, contents }
}

/// Two reports on the same stored crash differ in nothing but the time on
/// the `Generated` line: what stands before that time and what stands after
/// it does not depend on when the report is written.
pub proof fn lemma_report_differs_only_in_generated(
    data: CrashReportData,
    first: Seq<char>,
    second: Seq<char>,
)
    ensures
        db_report_text(data, first) == before_generated() + utf8(first) + after_generated(data),
        db_report_text(data, second) == before_generated() + utf8(second) + after_generated(data),
{
    reveal(header_text);
    assert(db_report_text(data, first) =~= before_generated() + utf8(first) + after_generated(
        data,
    ));
    assert(db_report_text(data, second) =~= before_generated() + utf8(second) + after_generated(
        data,
    ));
}

/// The text of a report up to the time on the `Generated` line.
pub open spec fn before_generated() -> Seq<u8> {
    utf8("Crash Report\n"@) + utf8("============\n"@) + utf8("Generated: "@)
}

/// The text of the report on a stored crash after the time on the
/// `Generated` line.
pub open spec fn after_generated(data: CrashReportData) -> Seq<u8> {
    utf8("\n"@) + utf8("\n"@) + db_report_body(data)
}

} // verus!
