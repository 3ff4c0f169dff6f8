//! Three interchangeable ways to extend a destination with the source
//! elements whose key lies above the destination's largest key. They differ
//! only in how long a reference into the destination stays alive.
use vstd::prelude::*;
use crate::threshold::{
    ExtendError,
    above,
    key_fn_ok,
    key_spec,
    lemma_key_call,
    max_element,
    max_index,
    max_key,
    max_position,
    resolve_threshold,
};

verus! {

/// Which discipline a call of `extend` follows.
#[derive(Debug, Clone, Copy, PartialEq, Eq, Structural)]
pub enum Strategy {
    /// Locate the largest element, copy its key out, then append one by one.
    CopyThenMutate,
    /// Filter the source against a held reference into a buffer, then
    /// append the buffer in one step.
    CollectThenExtend,
    /// Resolve only a scalar key, then append one by one.
    ScalarOnly,
}

/// `d` followed by the elements of `s` whose key is strictly above `t`,
/// in their order in `s`.
pub open spec fn extension_over(
    d: Seq<String>,
    s: Seq<String>,
    t: int,
    k: spec_fn(String) -> int,
) -> Seq<String> {
    d + s.filter(above(t, k))
}

/// The key of the element that the locating pass finds.
pub open spec fn located_threshold(d: Seq<String>, k: spec_fn(String) -> int) -> int {
    k(d[max_index(d, k)])
}

/// What a strategy makes of a non-empty destination `d` and a source `s`.
pub open spec fn outcome(
    strategy: Strategy,
    d: Seq<String>,
    s: Seq<String>,
    k: spec_fn(String) -> int,
) -> Seq<String> {
    match strategy {
        Strategy::ScalarOnly => extension_over(d, s, max_key(d, k), k),
        _ => extension_over(d, s, located_threshold(d, k), k),
    }
}

/// Appends a clone of every element of `src` whose key is above `t`.
fn append_above<F: Fn(&String) -> usize>(
    dest: &mut Vec<String>,
    src: &Vec<String>,
    t: usize,
    key: &F,
)
    requires
        key_fn_ok(*key),
    ensures
        final(dest)@ == extension_over(old(dest)@, src@, t as int, key_spec(*key)),
{
    let ghost k = key_spec(*key);
    let mut j: usize = 0;
    while j < src.len()
        invariant
            key_fn_ok(*key),
            k == key_spec(*key),
            j <= src@.len(),
            dest@ == old(dest)@ + src@.take(j as int).filter(above(t as int, k)),
        decreases src@.len() - j,
    {
        let e = &src[j];
        let v = key(e);
        proof {
            lemma_key_call(*key, e, v);
            assert(src@.take(j as int + 1) =~= src@.take(j as int).push(src@[j as int]));
            src@.take(j as int).lemma_filter_push(src@[j as int], above(t as int, k));
        }
        if v > t {
            dest.push(e.clone());
        }
        j += 1;
    }
    assert(src@.take(j as int) =~= src@);
}

/// Copy-then-mutate: finds the position of the largest element, copies its
/// key out, and only then appends, one element at a time. An empty
/// destination is an error and is left as it was.
pub fn extend_copy_then_mutate<F: Fn(&String) -> usize>(
    dest: &mut Vec<String>,
    src: &Vec<String>,
    key: F,
) -> (r: Result<(), ExtendError>)
    requires
        key_fn_ok(key),
    ensures
        old(dest)@.len() == 0 <==> r is Err,
        r is Err ==> r == Err::<(), ExtendError>(ExtendError::EmptyDestination),
        r is Err ==> final(dest)@ == old(dest)@,
        r is Ok ==> final(dest)@ == extension_over(
            old(dest)@,
            src@,
            located_threshold(old(dest)@, key_spec(key)),
            key_spec(key),
        ),
{
    let i = match max_position(dest, &key) {
        Ok(i) => i,
        Err(e) => return Err(e),
    };
    let t: usize = key(&dest[i]);
    proof {
        lemma_key_call(key, &dest@[i as int], t);
    }
    append_above(dest, src, t, &key);
    Ok(())
}

/// Collect-then-extend: holds a reference to the largest element while it
/// filters the source into a buffer, then drops the reference and appends
/// the buffer in one step. An empty destination is an error and is left as
/// it was.
pub fn extend_collect_then_extend<F: Fn(&String) -> usize>(
    dest: &mut Vec<String>,
    src: &Vec<String>,
    key: F,
) -> (r: Result<(), ExtendError>)
    requires
        key_fn_ok(key),
    ensures
        old(dest)@.len() == 0 <==> r is Err,
        r is Err ==> r == Err::<(), ExtendError>(ExtendError::EmptyDestination),
        r is Err ==> final(dest)@ == old(dest)@,
        r is Ok ==> final(dest)@ == extension_over(
            old(dest)@,
            src@,
            located_threshold(old(dest)@, key_spec(key)),
            key_spec(key),
        ),
{
    let ghost k = key_spec(key);
    let mut picked: Vec<String> = Vec::new();
    {
        let m = match max_element(dest, &key) {
            Ok(m) => m,
            Err(e) => return Err(e),
        };
        let ghost t = located_threshold(dest@, k);
        let mut j: usize = 0;
        while j < src.len()
            invariant
                key_fn_ok(key),
                k == key_spec(key),
                j <= src@.len(),
                k(*m) == t,
                picked@ == src@.take(j as int).filter(above(t, k)),
            decreases src@.len() - j,
        {
            let e = &src[j];
            let v = key(e);
            let w = key(m);
            proof {
                lemma_key_call(key, e, v);
                lemma_key_call(key, m, w);
                assert(src@.take(j as int + 1) =~= src@.take(j as int).push(src@[j as int]));
                src@.take(j as int).lemma_filter_push(src@[j as int], above(t, k));
            }
            if v > w {
                picked.push(e.clone());
            }
            j += 1;
        }
        assert(src@.take(j as int) =~= src@);
    }
    dest.append(&mut picked);
    Ok(())
}

/// Scalar-only: resolves the largest key as a plain value before anything
/// else, then appends one element at a time. An empty destination is an
/// error and is left as it was.
pub fn extend_scalar_only<F: Fn(&String) -> usize>(
    dest: &mut Vec<String>,
    src: &Vec<String>,
    key: F,
) -> (r: Result<(), ExtendError>)
    requires
        key_fn_ok(key),
    ensures
        old(dest)@.len() == 0 <==> r is Err,
        r is Err ==> r == Err::<(), ExtendError>(ExtendError::EmptyDestination),
        r is Err ==> final(dest)@ == old(dest)@,
        r is Ok ==> final(dest)@ == extension_over(
            old(dest)@,
            src@,
            max_key(old(dest)@, key_spec(key)),
            key_spec(key),
        ),
{
    let t = match resolve_threshold(dest, &key) {
        Ok(t) => t,
        Err(e) => return Err(e),
    };
    append_above(dest, src, t, &key);
    Ok(())
}

/// Extends `dest` following `strategy`. Every strategy fails alike on an
/// empty destination and leaves it as it was.
pub fn extend<F: Fn(&String) -> usize>(
    strategy: Strategy,
    dest: &mut Vec<String>,
    src: &Vec<String>,
    key: F,
) -> (r: Result<(), ExtendError>)
    requires
        key_fn_ok(key),
    ensures
        old(dest)@.len() == 0 <==> r is Err,
        r is Err ==> r == Err::<(), ExtendError>(ExtendError::EmptyDestination),
        r is Err ==> final(dest)@ == old(dest)@,
        r is Ok ==> final(dest)@ == outcome(strategy, old(dest)@, src@, key_spec(key)),
{
    match strategy {
        Strategy::CopyThenMutate => extend_copy_then_mutate(dest, src, key),
        Strategy::CollectThenExtend => extend_collect_then_extend(dest, src, key),
        Strategy::ScalarOnly => extend_scalar_only(dest, src, key),
    }
}

} // verus!
