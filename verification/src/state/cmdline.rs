//! The command line of a process as one string.

use crate::text::{lemma_run_len_is, run_len, utf8};
use vstd::prelude::*;
use vstd::string::*;
use vstd::utf8::*;

verus! {

/// The text that a lossy UTF-8 decoder makes of `bytes`.
pub uninterp spec fn utf8_lossy(bytes: Seq<u8>) -> Seq<char>;

/// Decodes `bytes` as UTF-8 with `String::from_utf8_lossy`, which replaces
/// each malformed sequence by U+FFFD. The result is a function of the bytes
/// alone; of valid UTF-8 it is the text that the bytes encode.
#[verifier::external_body]
fn lossy_string(bytes: &[u8]) -> (r: String)
    ensures
        r@ == utf8_lossy(bytes@),
        valid_utf8(bytes@) ==> utf8(r@) == bytes@,
{
    String::from_utf8_lossy(bytes).into_owned()
}

/// The non-empty fields that NUL bytes separate in `raw`, in order.
pub open spec fn nul_fields(raw: Seq<u8>) -> Seq<Seq<u8>>
    decreases raw.len(),
{
    if raw.len() == 0 {
        Seq::empty()
    } else {
        let n = run_len(raw, 0);
        if n <= 0 {
            nul_fields(raw.drop_first())
        } else if n >= raw.len() {
            seq![raw]
        } else {
            seq![raw.take(n)] + nul_fields(raw.skip(n + 1))
        }
    }
}

/// The parts joined by single spaces.
pub open spec fn spaced(parts: Seq<Seq<char>>) -> Seq<char>
    decreases parts.len(),
{
    if parts.len() == 0 {
        Seq::empty()
    } else if parts.len() == 1 {
        parts[0]
    } else {
        spaced(parts.drop_last()) + seq![' '] + parts.last()
    }
}

/// The text of each of the strings.
pub open spec fn texts_of(parts: Seq<String>) -> Seq<Seq<char>> {
    Seq::new(parts.len(), |i: int| parts[i]@)
}

/// The bytes of each of the fields.
pub open spec fn bytes_of(fields: Seq<Vec<u8>>) -> Seq<Seq<u8>> {
    Seq::new(fields.len(), |i: int| fields[i]@)
}

/// Each of the fields decoded lossily.
pub open spec fn lossy_texts(fields: Seq<Seq<u8>>) -> Seq<Seq<char>> {
    Seq::new(fields.len(), |i: int| utf8_lossy(fields[i]))
}

/// The command line as one string: the non-empty NUL-separated arguments of
/// `raw`, decoded lossily and joined by single spaces.
pub open spec fn cmdline_text(raw: Seq<u8>) -> Seq<char> {
    spaced(lossy_texts(nul_fields(raw)))
}

/// The non-empty fields that NUL bytes separate in `raw`, in order.
pub fn split_nul_fields(raw: &[u8]) -> (fields: Vec<Vec<u8>>)
    ensures
        bytes_of(fields@) == nul_fields(raw@),
{
    let len: usize = raw.len();
    let mut fields: Vec<Vec<u8>> = Vec::new();
    let mut pos: usize = 0;
    assert(raw@.skip(0) =~= raw@);
    assert(bytes_of(fields@) + nul_fields(raw@.skip(0)) =~= nul_fields(raw@));
    while pos < len
        invariant
            pos <= len,
            len == raw@.len(),
            nul_fields(raw@) == bytes_of(fields@) + nul_fields(raw@.skip(pos as int)),
        decreases len - pos,
    {
        let ghost rest = raw@.skip(pos as int);
        let ghost done = bytes_of(fields@);
        let mut end: usize = pos;
        while end < len && raw[end] != 0
            invariant
                pos <= end <= len,
                len == raw@.len(),
                forall|k: int| pos <= k < end ==> raw@[k] != 0,
            decreases len - end,
        {
            end = end + 1;
        }
        proof {
            assert forall|k: int| 0 <= k < end - pos implies rest[k] != 0 by {
                assert(rest[k] == raw@[pos + k]);
            }
            lemma_run_len_is(rest, 0, end - pos);
        }
        if end == pos {
            assert(rest.drop_first() =~= raw@.skip(pos + 1));
            pos = pos + 1;
        } else {
            let field: Vec<u8> = vstd::slice::slice_to_vec(
                vstd::slice::slice_subrange(raw, pos, end),
            );
            fields.push(field);
            proof {
                let next = bytes_of(fields@);
                assert(field@ =~= rest.take(end - pos));
                assert(next =~= done.push(field@));
                if end < len {
                    assert(rest.skip(end - pos + 1) =~= raw@.skip(end + 1));
                    assert(done + (seq![rest.take(end - pos)] + nul_fields(raw@.skip(end + 1)))
                        =~= next + nul_fields(raw@.skip(end + 1)));
                } else {
                    assert(rest.take(end - pos) =~= rest);
                    assert(raw@.skip(len as int) =~= Seq::<u8>::empty());
                    assert(done + seq![rest] =~= next + nul_fields(raw@.skip(len as int)));
                }
            }
            pos = if end < len {
                end + 1
            } else {
                end
            };
        }
    }
    assert(nul_fields(raw@) =~= bytes_of(fields@));
    fields
}

/// Joins the parts by single spaces.
pub fn join_with_spaces(parts: &Vec<String>) -> (r: String)
    ensures
        r@ == spaced(texts_of(parts@)),
{
    let n: usize = parts.len();
    let mut out: String = String::new();
    let mut i: usize = 0;
    assert(texts_of(parts@).take(0) =~= Seq::<Seq<char>>::empty());
    while i < n
        invariant
            i <= n,
            n == parts@.len(),
            out@ == spaced(texts_of(parts@).take(i as int)),
        decreases n - i,
    {
        let ghost all = texts_of(parts@);
        if i > 0 {
            out.append(" ");
            proof {
                reveal_strlit(" ");
                assert(" "@ =~= seq![' ']);
            }
        }
        out.append(parts[i].as_str());
        proof {
            assert(all.take(i + 1).drop_last() =~= all.take(i as int));
            assert(all.take(i + 1).last() == parts@[i as int]@);
            if i == 0 {
                assert(out@ =~= parts@[0]@);
            }
        }
        i = i + 1;
    }
    assert(texts_of(parts@).take(n as int) =~= texts_of(parts@));
    out
}

/// The arguments of a raw command line, decoded lossily.
pub fn decode_arguments(fields: &Vec<Vec<u8>>) -> (texts: Vec<String>)
    ensures
        texts_of(texts@) == lossy_texts(bytes_of(fields@)),
{
    let n: usize = fields.len();
    let mut texts: Vec<String> = Vec::new();
    let mut i: usize = 0;
    while i < n
        invariant
            i <= n,
            n == fields@.len(),
            texts@.len() == i,
            forall|k: int| 0 <= k < i ==> (#[trigger] texts@[k])@ == utf8_lossy(fields@[k]@),
        decreases n - i,
    {
        texts.push(lossy_string(fields[i].as_slice()));
        i = i + 1;
    }
    assert(texts_of(texts@) =~= lossy_texts(bytes_of(fields@)));
    texts
}

/// Joins the arguments of a raw command line by single spaces.
pub fn join_cmdline(raw: &[u8]) -> (r: String)
    ensures
        r@ == cmdline_text(raw@),
{
    let fields: Vec<Vec<u8>> = split_nul_fields(raw);
    let texts: Vec<String> = decode_arguments(&fields);
    join_with_spaces(&texts)
}

} // verus!
