//! Threshold resolution: a scalar summary of a destination sequence, taken
//! by value so that it stays valid however the destination changes later.
use vstd::prelude::*;

verus! {

/// The one failure of threshold resolution.
#[derive(Debug, Clone, Copy, PartialEq, Eq, Structural)]
pub enum ExtendError {
    /// The destination holds no element, so it has no largest key.
    EmptyDestination,
}

/// A key function that can be called on every element and always gives
/// the same key for the same element.
pub open spec fn key_fn_ok<F: Fn(&String) -> usize>(key: F) -> bool {
    &&& forall|e: &String| #[trigger] key.requires((e,))
    &&& forall|e: &String, a: usize, b: usize|
        #![trigger key.ensures((e,), a), key.ensures((e,), b)]
        key.ensures((e,), a) && key.ensures((e,), b) ==> a == b
}

/// The key that `key` gives to `e`.
pub open spec fn key_value<F: Fn(&String) -> usize>(key: F, e: String) -> usize {
    choose|r: usize| key.ensures((&e,), r)
}

/// The key function as a mathematical function.
pub open spec fn key_spec<F: Fn(&String) -> usize>(key: F) -> spec_fn(String) -> int {
    |e: String| key_value(key, e) as int
}

/// Largest key over a non-empty sequence.
pub open spec fn max_key(d: Seq<String>, k: spec_fn(String) -> int) -> int
    recommends
        d.len() > 0,
    decreases d.len(),
{
    if d.len() <= 1 {
        k(d[0])
    } else {
        let m = max_key(d.drop_last(), k);
        if k(d.last()) > m {
            k(d.last())
        } else {
            m
        }
    }
}

/// Position of the first element that has the largest key.
pub open spec fn max_index(d: Seq<String>, k: spec_fn(String) -> int) -> int
    recommends
        d.len() > 0,
    decreases d.len(),
{
    if d.len() <= 1 {
        0
    } else {
        let i = max_index(d.drop_last(), k);
        if k(d.last()) > k(d[i]) {
            d.len() - 1
        } else {
            i
        }
    }
}

/// The elements whose key lies strictly above `t`.
pub open spec fn above(t: int, k: spec_fn(String) -> int) -> spec_fn(String) -> bool {
    |e: String| k(e) > t
}

/// What a call of the key function returned is its key.
pub proof fn lemma_key_call<F: Fn(&String) -> usize>(key: F, e: &String, r: usize)
    requires
        key_fn_ok(key),
        key.ensures((e,), r),
    ensures
        key_value(key, *e) == r,
        key_spec(key)(*e) == r as int,
{
    let c = key_value(key, *e);
    assert(key.ensures((e,), c));
}

/// The element at `max_index` carries `max_key`, which bounds every key.
pub proof fn lemma_max_index(d: Seq<String>, k: spec_fn(String) -> int)
    requires
        d.len() > 0,
    ensures
        0 <= max_index(d, k) < d.len(),
        k(d[max_index(d, k)]) == max_key(d, k),
        forall|i: int| 0 <= i < d.len() ==> k(#[trigger] d[i]) <= max_key(d, k),
    decreases d.len(),
{
    if d.len() > 1 {
        lemma_max_index(d.drop_last(), k);
        assert forall|i: int| 0 <= i < d.len() implies k(#[trigger] d[i]) <= max_key(d, k) by {
            if i < d.len() - 1 {
                assert(d[i] == d.drop_last()[i]);
            }
        }
    }
}

/// Resolves the threshold as a plain scalar: the largest key in `dest`.
/// No reference into `dest` is ever formed beyond one element at a time.
pub fn resolve_threshold<F: Fn(&String) -> usize>(dest: &Vec<String>, key: &F) -> (r: Result<
    usize,
    ExtendError,
>)
    requires
        key_fn_ok(*key),
    ensures
        dest@.len() == 0 <==> r == Err::<usize, ExtendError>(ExtendError::EmptyDestination),
        r is Ok ==> r->Ok_0 as int == max_key(dest@, key_spec(*key)),
{
    let ghost k = key_spec(*key);
    if dest.len() == 0 {
        return Err(ExtendError::EmptyDestination);
    }
    let mut best: usize = key(&dest[0]);
    proof {
        lemma_key_call(*key, &dest@[0], best);
    }
    let mut i: usize = 1;
    while i < dest.len()
        invariant
            key_fn_ok(*key),
            k == key_spec(*key),
            1 <= i <= dest@.len(),
            best as int == max_key(dest@.take(i as int), k),
        decreases dest@.len() - i,
    {
        let v = key(&dest[i]);
        proof {
            lemma_key_call(*key, &dest@[i as int], v);
            assert(dest@.take(i as int + 1).drop_last() =~= dest@.take(i as int));
        }
        if v > best {
            best = v;
        }
        i += 1;
    }
    assert(dest@.take(i as int) =~= dest@);
    proof {
        lemma_max_index(dest@, k);
    }
    Ok(best)
}

/// Locates the first element with the largest key and returns its position.
pub fn max_position<F: Fn(&String) -> usize>(dest: &Vec<String>, key: &F) -> (r: Result<
    usize,
    ExtendError,
>)
    requires
        key_fn_ok(*key),
    ensures
        dest@.len() == 0 <==> r == Err::<usize, ExtendError>(ExtendError::EmptyDestination),
        r is Ok ==> r->Ok_0 as int == max_index(dest@, key_spec(*key)),
        r is Ok ==> r->Ok_0 < dest@.len(),
{
    let ghost k = key_spec(*key);
    if dest.len() == 0 {
        return Err(ExtendError::EmptyDestination);
    }
    let mut best: usize = 0;
    let mut best_key: usize = key(&dest[0]);
    proof {
        lemma_key_call(*key, &dest@[0], best_key);
    }
    let mut i: usize = 1;
    while i < dest.len()
        invariant
            key_fn_ok(*key),
            k == key_spec(*key),
            1 <= i <= dest@.len(),
            best as int == max_index(dest@.take(i as int), k),
            best < i,
            best_key as int == k(dest@[best as int]),
        decreases dest@.len() - i,
    {
        let v = key(&dest[i]);
        proof {
            lemma_key_call(*key, &dest@[i as int], v);
            let t = dest@.take(i as int + 1);
            assert(t.drop_last() =~= dest@.take(i as int));
            assert(t.drop_last()[best as int] == dest@[best as int]);
        }
        if v > best_key {
            best = i;
            best_key = v;
        }
        i += 1;
    }
    assert(dest@.take(i as int) =~= dest@);
    proof {
        lemma_max_index(dest@, k);
    }
    Ok(best)
}

/// Locates the first element with the largest key and returns a reference
/// to it; the reference borrows `dest`, which stays frozen while it lives.
pub fn max_element<'a, F: Fn(&String) -> usize>(dest: &'a Vec<String>, key: &F) -> (r: Result<
    &'a String,
    ExtendError,
>)
    requires
        key_fn_ok(*key),
    ensures
        dest@.len() == 0 <==> r is Err,
        r is Err ==> r == Err::<&String, ExtendError>(ExtendError::EmptyDestination),
        r is Ok ==> *r->Ok_0 == dest@[max_index(dest@, key_spec(*key))],
{
    match max_position(dest, key) {
        Ok(i) => {
            proof {
                lemma_max_index(dest@, key_spec(*key));
            }
            Ok(&dest[i])
        },
        Err(e) => Err(e),
    }
}

} // verus!
