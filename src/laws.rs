//! Laws that tie the strategies and the threshold together.
use vstd::prelude::*;
use crate::threshold::{above, lemma_max_index, max_key};
use crate::strategy::{Strategy, outcome};

verus! {

/// `idx` lists strictly increasing positions of `s` that hold, in turn, the
/// elements of `a`.
pub open spec fn picks(idx: Seq<int>, a: Seq<String>, s: Seq<String>) -> bool {
    &&& idx.len() == a.len()
    &&& forall|j: int|
        0 <= j < idx.len() ==> 0 <= #[trigger] idx[j] < s.len() && a[j] == s[idx[j]]
    &&& forall|j1: int, j2: int| 0 <= j1 < j2 < idx.len() ==> #[trigger] idx[j1] < #[trigger] idx[j2]
}

/// `a` is made of elements of `s` taken at strictly increasing positions.
pub open spec fn ordered_subsequence(a: Seq<String>, s: Seq<String>) -> bool {
    exists|idx: Seq<int>| picks(idx, a, s)
}

/// The part of a strategy's outcome that was appended to `d`.
pub open spec fn appended(
    strategy: Strategy,
    d: Seq<String>,
    s: Seq<String>,
    k: spec_fn(String) -> int,
) -> Seq<String> {
    let o = outcome(strategy, d, s, k);
    o.subrange(d.len() as int, o.len() as int)
}

/// Filtering keeps the order of what it keeps.
proof fn lemma_filter_ordered(s: Seq<String>, p: spec_fn(String) -> bool)
    ensures
        ordered_subsequence(s.filter(p), s),
    decreases s.len(),
{
    reveal(Seq::filter);
    let f = s.filter(p);
    if s.len() == 0 {
        let idx = Seq::<int>::empty();
        assert(picks(idx, f, s));
    } else {
        let s0 = s.drop_last();
        lemma_filter_ordered(s0, p);
        let f0 = s0.filter(p);
        let idx0 = choose|idx: Seq<int>| picks(idx, f0, s0);
        if p(s.last()) {
            let idx = idx0.push(s.len() - 1);
            assert(f == f0.push(s.last()));
            assert forall|j: int| 0 <= j < idx.len() implies 0 <= #[trigger] idx[j] < s.len() && f[j]
                == s[idx[j]] by {
                if j < idx0.len() {
                    assert(idx[j] == idx0[j]);
                    assert(s0[idx0[j]] == s[idx0[j]]);
                }
            }
            assert forall|j1: int, j2: int| 0 <= j1 < j2 < idx.len() implies #[trigger] idx[j1]
                < #[trigger] idx[j2] by {
                if j2 < idx0.len() {
                    assert(idx[j1] == idx0[j1] && idx[j2] == idx0[j2]);
                } else {
                    assert(idx[j1] == idx0[j1]);
                }
            }
            assert(picks(idx, f, s));
        } else {
            assert(f == f0);
            assert forall|j: int| 0 <= j < idx0.len() implies 0 <= #[trigger] idx0[j] < s.len()
                && f[j] == s[idx0[j]] by {
                assert(s0[idx0[j]] == s[idx0[j]]);
            }
            assert(picks(idx0, f, s));
        }
    }
}

/// Every strategy produces the same destination from the same non-empty
/// destination and source.
pub proof fn lemma_strategies_agree(d: Seq<String>, s: Seq<String>, k: spec_fn(String) -> int)
    requires
        d.len() > 0,
    ensures
        forall|a: Strategy, b: Strategy| outcome(a, d, s, k) == outcome(b, d, s, k),
{
    lemma_max_index(d, k);
}

/// The destination's elements stay first and unchanged, and the appended
/// elements keep the relative order they had in the source.
pub proof fn lemma_order_kept(
    strategy: Strategy,
    d: Seq<String>,
    s: Seq<String>,
    k: spec_fn(String) -> int,
)
    requires
        d.len() > 0,
    ensures
        outcome(strategy, d, s, k).subrange(0, d.len() as int) == d,
        ordered_subsequence(appended(strategy, d, s, k), s),
{
    lemma_strategies_agree(d, s, k);
    let p = above(max_key(d, k), k);
    let o = outcome(strategy, d, s, k);
    assert(o == outcome(Strategy::ScalarOnly, d, s, k));
    assert(o.subrange(0, d.len() as int) =~= d);
    assert(appended(strategy, d, s, k) =~= s.filter(p));
    lemma_filter_ordered(s, p);
}

/// A source element is appended exactly when its key is strictly above the
/// largest key of the original destination; that largest key is the key of
/// some element and bounds every other.
pub proof fn lemma_threshold(
    strategy: Strategy,
    d: Seq<String>,
    s: Seq<String>,
    k: spec_fn(String) -> int,
)
    requires
        d.len() > 0,
    ensures
        exists|i: int| 0 <= i < d.len() && k(d[i]) == max_key(d, k),
        forall|i: int| 0 <= i < d.len() ==> k(#[trigger] d[i]) <= max_key(d, k),
        forall|i: int|
            0 <= i < s.len() ==> (appended(strategy, d, s, k).contains(#[trigger] s[i]) <==> k(s[i])
                > max_key(d, k)),
        forall|j: int|
            0 <= j < appended(strategy, d, s, k).len() ==> s.contains(
                #[trigger] appended(strategy, d, s, k)[j],
            ),
{
    broadcast use vstd::seq_lib::group_filter_ensures;

    lemma_max_index(d, k);
    lemma_strategies_agree(d, s, k);
    let p = above(max_key(d, k), k);
    let o = outcome(strategy, d, s, k);
    assert(o == outcome(Strategy::ScalarOnly, d, s, k));
    let a = appended(strategy, d, s, k);
    assert(a =~= s.filter(p));
    assert forall|i: int| 0 <= i < s.len() implies (a.contains(#[trigger] s[i]) <==> k(s[i]) > max_key(
        d,
        k,
    )) by {
        if a.contains(s[i]) {
            let j = choose|j: int| 0 <= j < a.len() && a[j] == s[i];
            assert(p(a[j]));
        }
    }
    lemma_filter_ordered(s, p);
    assert forall|j: int| 0 <= j < a.len() implies s.contains(#[trigger] a[j]) by {
        let idx = choose|idx: Seq<int>| picks(idx, a, s);
        assert(0 <= idx[j] < s.len() && a[j] == s[idx[j]]);
    }
}

/// An empty source leaves the destination as it was, whatever the strategy.
pub proof fn lemma_empty_source(strategy: Strategy, d: Seq<String>, k: spec_fn(String) -> int)
    requires
        d.len() > 0,
    ensures
        outcome(strategy, d, Seq::<String>::empty(), k) == d,
{
    reveal(Seq::filter);
    let e = Seq::<String>::empty();
    assert(e.filter(above(max_key(d, k), k)) == e);
    assert(d + e =~= d);
    lemma_strategies_agree(d, e, k);
    assert(outcome(strategy, d, e, k) == outcome(Strategy::ScalarOnly, d, e, k));
}

} // verus!
