//! How the language runtime of a process is told from its memory map: by
//! the shared object named in the last word of a line.

use crate::state::map::RuntimeKind;
use vstd::prelude::*;
use vstd::string::*;

verus! {

/// Whether `c` has the Unicode property `White_Space`.
pub open spec fn white_space(c: char) -> bool {
    let u = c as u32;
    ||| 0x09 <= u <= 0x0d
    ||| u == 0x20
    ||| u == 0x85
    ||| u == 0xa0
    ||| u == 0x1680
    ||| 0x2000 <= u <= 0x200a
    ||| u == 0x2028
    ||| u == 0x2029
    ||| u == 0x202f
    ||| u == 0x205f
    ||| u == 0x3000
}

/// Whether `c` has the Unicode property `White_Space`.
pub fn is_white_space(c: char) -> (r: bool)
    ensures
        r == white_space(c),
{
    let u: u32 = c as u32;
    (0x09 <= u && u <= 0x0d) || u == 0x20 || u == 0x85 || u == 0xa0 || u == 0x1680 || (0x2000 <= u
        && u <= 0x200a) || u == 0x2028 || u == 0x2029 || u == 0x202f || u == 0x205f || u == 0x3000
}

/// The characters of `s`, one by one.
pub fn chars_of(s: &str) -> (v: Vec<char>)
    ensures
        v@ == s@,
{
    let mut v: Vec<char> = Vec::new();
    for c in it: s.chars()
        invariant
            v@ == it.seq().take(it.index()),
            it.seq() == s@,
    {
        v.push(c);
    }
    v
}

/// Whether `needle` stands in `hay` at position `i`.
pub open spec fn occurs_at(hay: Seq<char>, needle: Seq<char>, i: int) -> bool {
    &&& 0 <= i
    &&& i + needle.len() <= hay.len()
    &&& hay.subrange(i, i + needle.len()) == needle
}

/// Whether `needle` stands somewhere in `hay`.
pub open spec fn contains_text(hay: Seq<char>, needle: Seq<char>) -> bool {
    exists|i: int| occurs_at(hay, needle, i)
}

/// Whether `needle` stands in `hay[lo..hi]` at position `lo + i`.
fn occurs_in(hay: &Vec<char>, lo: usize, hi: usize, needle: &Vec<char>, i: usize) -> (r: bool)
    requires
        lo <= hi <= hay@.len(),
        lo + i + needle@.len() <= hi,
    ensures
        r == occurs_at(hay@.subrange(lo as int, hi as int), needle@, i as int),
{
    let n: usize = needle.len();
    let ghost window = hay@.subrange(lo as int, hi as int);
    let mut j: usize = 0;
    while j < n
        invariant
            j <= n,
            n == needle@.len(),
            lo <= hi <= hay@.len(),
            lo + i + n <= hi,
            window == hay@.subrange(lo as int, hi as int),
            forall|k: int| 0 <= k < j ==> hay@[lo + i + k] == needle@[k],
        decreases n - j,
    {
        if hay[lo + i + j] != needle[j] {
            assert(window.subrange(i as int, i + n)[j as int] != needle@[j as int]);
            return false;
        }
        j = j + 1;
    }
    assert(window.subrange(i as int, i + n) =~= needle@);
    true
}

/// Whether `needle` stands somewhere in `hay[lo..hi]`.
fn window_contains(hay: &Vec<char>, lo: usize, hi: usize, needle: &Vec<char>) -> (r: bool)
    requires
        lo <= hi <= hay@.len(),
    ensures
        r == contains_text(hay@.subrange(lo as int, hi as int), needle@),
{
    let n: usize = needle.len();
    let ghost window = hay@.subrange(lo as int, hi as int);
    if hi - lo < n {
        assert(forall|i: int| !occurs_at(window, needle@, i));
        return false;
    }
    let last: usize = hi - lo - n;
    let mut i: usize = 0;
    while i < last
        invariant
            i <= last,
            last == hi - lo - n,
            n == needle@.len(),
            lo <= hi <= hay@.len(),
            window == hay@.subrange(lo as int, hi as int),
            forall|k: int| 0 <= k < i ==> !occurs_at(window, needle@, k),
        decreases last - i,
    {
        if occurs_in(hay, lo, hi, needle, i) {
            return true;
        }
        i = i + 1;
    }
    if occurs_in(hay, lo, hi, needle, last) {
        return true;
    }
    assert(forall|k: int| !occurs_at(window, needle@, k));
    false
}

/// Where the last run of non-space characters of `line` ends: one past its
/// last non-space character, or 0 when there is none.
pub open spec fn token_end(line: Seq<char>) -> int
    decreases line.len(),
{
    if line.len() == 0 {
        0
    } else if white_space(line.last()) {
        token_end(line.drop_last())
    } else {
        line.len() as int
    }
}

/// Where the run of non-space characters that ends at `end` starts.
pub open spec fn token_start(line: Seq<char>, end: int) -> int
    decreases end,
{
    if end <= 0 {
        0
    } else if white_space(line[end - 1]) {
        end
    } else {
        token_start(line, end - 1)
    }
}

/// The last of the words that white space separates in `line`.
pub open spec fn last_token(line: Seq<char>) -> Option<Seq<char>> {
    let end = token_end(line);
    if end == 0 {
        None
    } else {
        Some(line.subrange(token_start(line, end), end))
    }
}

/// The runtime that the path of one mapped object gives away. Where several
/// names occur in one path, the first in this order decides.
pub open spec fn runtime_of_path(path: Seq<char>) -> Option<RuntimeKind> {
    if contains_text(path, "libjvm.so"@) {
        Some(RuntimeKind::Jvm)
    } else if contains_text(path, "libil2cpp.so"@) {
        Some(RuntimeKind::Il2Cpp)
    } else if contains_text(path, "libnode.so"@) || contains_text(path, "libv8.so"@) {
        Some(RuntimeKind::V8)
    } else if contains_text(path, "libcoreclr.so"@) {
        Some(RuntimeKind::CoreClr)
    } else if contains_text(path, "libmonosgen"@) {
        Some(RuntimeKind::Mono)
    } else if contains_text(path, "libpython3"@) {
        Some(RuntimeKind::Python)
    } else {
        None
    }
}

/// The runtime that one line of a memory map gives away: that of its last word.
pub open spec fn runtime_of_line(line: Seq<char>) -> Option<RuntimeKind> {
    match last_token(line) {
        Some(path) => runtime_of_path(path),
        None => None,
    }
}

/// The runtime of a memory map: that of its first line that gives one away,
/// `Native` when no line does.
pub open spec fn detected_runtime(maps: Seq<String>) -> RuntimeKind
    decreases maps.len(),
{
    if maps.len() == 0 {
        RuntimeKind::Native
    } else {
        match runtime_of_line(maps[0]@) {
            Some(kind) => kind,
            None => detected_runtime(maps.drop_first()),
        }
    }
}

/// The runtime that one line of a memory map gives away.
pub fn line_runtime(line: &str) -> (r: Option<RuntimeKind>)
    ensures
        r == runtime_of_line(line@),
{
    let chars: Vec<char> = chars_of(line);
    let mut end: usize = chars.len();
    assert(chars@.take(end as int) =~= chars@);
    while end > 0 && is_white_space(chars[end - 1])
        invariant
            end <= chars@.len(),
            token_end(chars@) == token_end(chars@.take(end as int)),
        decreases end,
    {
        assert(chars@.take(end as int).drop_last() =~= chars@.take(end - 1));
        end = end - 1;
    }
    if end == 0 {
        return None;
    }
    let mut start: usize = end;
    while start > 0 && !is_white_space(chars[start - 1])
        invariant
            start <= end <= chars@.len(),
            token_start(chars@, end as int) == token_start(chars@, start as int),
        decreases start,
    {
        start = start - 1;
    }
    assert(token_end(chars@) == end);
    assert(token_start(chars@, end as int) == start);
    let jvm: Vec<char> = chars_of("libjvm.so");
    let il2cpp: Vec<char> = chars_of("libil2cpp.so");
    let node: Vec<char> = chars_of("libnode.so");
    let v8: Vec<char> = chars_of("libv8.so");
    let coreclr: Vec<char> = chars_of("libcoreclr.so");
    let mono: Vec<char> = chars_of("libmonosgen");
    let python: Vec<char> = chars_of("libpython3");
    if window_contains(&chars, start, end, &jvm) {
        Some(RuntimeKind::Jvm)
    } else if window_contains(&chars, start, end, &il2cpp) {
        Some(RuntimeKind::Il2Cpp)
    } else if window_contains(&chars, start, end, &node) || window_contains(
        &chars,
        start,
        end,
        &v8,
    ) {
        Some(RuntimeKind::V8)
    } else if window_contains(&chars, start, end, &coreclr) {
        Some(RuntimeKind::CoreClr)
    } else if window_contains(&chars, start, end, &mono) {
        Some(RuntimeKind::Mono)
    } else if window_contains(&chars, start, end, &python) {
        Some(RuntimeKind::Python)
    } else {
        None
    }
}

} // verus!
