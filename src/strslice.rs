//! String slices and lifetimes: functions that hand back borrowed text.
use vstd::prelude::*;
use vstd::string::StringSliceAdditionalSpecFns;

verus! {

/// Returns its argument; the lifetime of the result is elided.
pub fn echo(s: &str) -> (r: &str)
    ensures
        r@ == s@,
{
    s
}

/// Same as `echo`, with the lifetime written out.
pub fn echo_explicit<'a>(s: &'a str) -> (r: &'a str)
    ensures
        r@ == s@,
{
    s
}

/// Returns the first of two slices; the result borrows from `a` only.
pub fn pick_first<'a>(a: &'a str, _b: &str) -> (r: &'a str)
    ensures
        r@ == a@,
{
    a
}

/// Length of `s` in bytes of UTF-8.
pub fn len(s: &str) -> (r: usize)
    ensures
        r == s.spec_bytes().len() as usize,
{
    s.len()
}

} // verus!
