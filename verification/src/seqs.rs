//! What a filter keeps of a sequence.

use vstd::prelude::*;

verus! {

/// A row that a filter keeps is a row of the table and meets the condition.
pub proof fn lemma_filter_member<T>(s: Seq<T>, p: spec_fn(T) -> bool, k: int)
    requires
        0 <= k < s.filter(p).len(),
    ensures
        s.contains(s.filter(p)[k]),
        p(s.filter(p)[k]),
{
    broadcast use vstd::seq_lib::group_filter_ensures;

    let e = s.filter(p)[k];
    assert(s.filter(p).contains(e));
    s.lemma_filter_contains_rev(p, e);
}

/// A row of the table that meets the condition is a row that the filter
/// keeps.
pub proof fn lemma_filter_keeps<T>(s: Seq<T>, p: spec_fn(T) -> bool, i: int)
    requires
        0 <= i < s.len(),
        p(s[i]),
    ensures
        s.filter(p).contains(s[i]),
{
    broadcast use vstd::seq_lib::group_filter_ensures;

}

/// Whether `x` stands before `y` in `s`.
pub open spec fn stands_before<T>(s: Seq<T>, x: T, y: T) -> bool {
    exists|i: int, j: int| 0 <= i < j < s.len() && #[trigger] s[i] == x && #[trigger] s[j] == y
}

/// A filter keeps the order of the rows.
pub proof fn lemma_filter_order<T>(s: Seq<T>, p: spec_fn(T) -> bool, a: int, b: int)
    requires
        0 <= a < b < s.filter(p).len(),
    ensures
        stands_before(s, s.filter(p)[a], s.filter(p)[b]),
    decreases s.len(),
{
    reveal(Seq::filter);
    if s.len() > 0 {
        let t = s.drop_last();
        let ft = t.filter(p);
        if p(s.last()) && b == ft.len() {
            lemma_filter_member(t, p, a);
            let i = choose|i: int| 0 <= i < t.len() && t[i] == ft[a];
            assert(s[i] == ft[a]);
            assert(s[s.len() - 1] == s.filter(p)[b]);
        } else {
            lemma_filter_order(t, p, a, b);
            let (i, j) = choose|i: int, j: int|
                0 <= i < j < t.len() && #[trigger] t[i] == ft[a] && #[trigger] t[j] == ft[b];
            assert(s[i] == ft[a] && s[j] == ft[b]);
        }
    }
}

} // verus!
