//! Numbers and strings as ASCII and UTF-8 text in a byte buffer.

use crate::bytes::push_bytes;
use vstd::prelude::*;
use vstd::string::*;
use vstd::utf8::*;

verus! {

/// The UTF-8 bytes of a string.
#[verifier::opaque]
pub open spec fn utf8(s: Seq<char>) -> Seq<u8> {
    encode_utf8(s)
}

/// The ASCII code of the lower-case hexadecimal digit `d`.
pub open spec fn hex_digit(d: int) -> u8 {
    if d < 10 {
        (48 + d) as u8
    } else {
        (87 + d) as u8
    }
}

/// `v` in lower-case hexadecimal, exactly `width` digits: the low `width`
/// digits of `v`, with leading zeros.
pub open spec fn hex_fixed(v: int, width: nat) -> Seq<u8>
    decreases width,
{
    if width == 0 {
        Seq::empty()
    } else {
        hex_fixed(v / 16, (width - 1) as nat).push(hex_digit(v % 16))
    }
}

/// `n` in decimal, without leading zeros.
pub open spec fn decimal(n: nat) -> Seq<u8>
    decreases n,
{
    if n < 10 {
        seq![(48 + n) as u8]
    } else {
        decimal(n / 10).push((48 + n % 10) as u8)
    }
}

/// `i` in decimal, with a minus sign when negative.
pub open spec fn signed_decimal(i: int) -> Seq<u8> {
    if i < 0 {
        seq![45u8] + decimal((-i) as nat)
    } else {
        decimal(i as nat)
    }
}

/// `n` in decimal, right-aligned with spaces to at least two columns.
pub open spec fn decimal_width2(n: nat) -> Seq<u8> {
    if n < 10 {
        seq![32u8] + decimal(n)
    } else {
        decimal(n)
    }
}

/// Appends the UTF-8 bytes of `s`.
pub fn push_str(out: &mut Vec<u8>, s: &str)
    ensures
        final(out)@ == old(out)@ + utf8(s@),
{
    reveal(utf8);
    push_bytes(out, s.as_bytes());
}

/// The UTF-8 bytes of `s`.
pub fn str_bytes(s: &str) -> (b: &[u8])
    ensures
        b@ == utf8(s@),
{
    reveal(utf8);
    s.as_bytes()
}

/// Appends `v` in lower-case hexadecimal, exactly `width` digits.
pub fn push_hex(out: &mut Vec<u8>, v: u64, width: usize)
    ensures
        final(out)@ == old(out)@ + hex_fixed(v as int, width as nat),
    decreases width,
{
    if width == 0 {
        assert(out@ =~= old(out)@ + hex_fixed(v as int, 0));
    } else {
        push_hex(out, v / 16, width - 1);
        let d: u8 = (v % 16) as u8;
        let c: u8 = if d < 10 {
            48 + d
        } else {
            87 + d
        };
        out.push(c);
        assert(out@ =~= old(out)@ + hex_fixed(v as int, width as nat));
    }
}

/// Appends `n` in decimal.
pub fn push_decimal(out: &mut Vec<u8>, n: u64)
    ensures
        final(out)@ == old(out)@ + decimal(n as nat),
    decreases n,
{
    if n >= 10 {
        push_decimal(out, n / 10);
    }
    let d: u8 = (n % 10) as u8;
    out.push(48 + d);
    assert(out@ =~= old(out)@ + decimal(n as nat));
}

/// Appends `i` in decimal, with a minus sign when negative.
pub fn push_signed_decimal(out: &mut Vec<u8>, i: i64)
    ensures
        final(out)@ == old(out)@ + signed_decimal(i as int),
{
    if i < 0 {
        out.push(45u8);
        let m: u64 = if i == i64::MIN {
            0x8000_0000_0000_0000u64
        } else {
            (-i) as u64
        };
        push_decimal(out, m);
        assert(out@ =~= old(out)@ + signed_decimal(i as int));
    } else {
        push_decimal(out, i as u64);
    }
}

/// Appends `n` in decimal, right-aligned with spaces to at least two columns.
pub fn push_decimal_width2(out: &mut Vec<u8>, n: u64)
    ensures
        final(out)@ == old(out)@ + decimal_width2(n as nat),
{
    if n < 10 {
        out.push(32u8);
    }
    push_decimal(out, n);
    assert(out@ =~= old(out)@ + decimal_width2(n as nat));
}

/// How many bytes stand before the first byte `stop` of `s`, or before its
/// end.
pub open spec fn run_len(s: Seq<u8>, stop: u8) -> int
    decreases s.len(),
{
    if s.len() == 0 || s[0] == stop {
        0
    } else {
        1 + run_len(s.drop_first(), stop)
    }
}

/// `n` is the run length of `s` where no byte before `n` is `stop` and the
/// byte at `n`, if there is one, is.
pub proof fn lemma_run_len_is(s: Seq<u8>, stop: u8, n: int)
    requires
        0 <= n <= s.len(),
        forall|k: int| 0 <= k < n ==> s[k] != stop,
        n < s.len() ==> s[n] == stop,
    ensures
        run_len(s, stop) == n,
    decreases s.len(),
{
    if s.len() == 0 || s[0] == stop {
    } else {
        let t = s.drop_first();
        assert forall|k: int| 0 <= k < n - 1 implies t[k] != stop by {
            assert(t[k] == s[k + 1]);
        }
        lemma_run_len_is(t, stop, n - 1);
    }
}

/// Reads `bytes` as UTF-8 with `core::str::from_utf8`: the string whose
/// encoding the bytes are, or `None` where they are not valid UTF-8.
#[verifier::external_body]
pub(crate) fn str_from_utf8(bytes: &[u8]) -> (r: Option<&str>)
    ensures
        r is Some <==> valid_utf8(bytes@),
        r is Some ==> utf8(r->0@) == bytes@,
{
    core::str::from_utf8(bytes).ok()
}

} // verus!
