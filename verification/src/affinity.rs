//! CPU sets for pinning. A single-threaded run pins its thread to one core
//! and restores every core afterwards, and the main thread is reset to
//! every core before multi-threaded workers start, so that no worker
//! inherits a one-core mask. Applying a set to a thread is the caller's.
use vstd::prelude::*;

verus! {

/// The set covering cores `[0, n)`: what a thread is reset to.
pub fn full_set(n: usize) -> (v: Vec<usize>)
    ensures
        v@ == Seq::new(n as nat, |i: int| i as usize),
{
    let mut v: Vec<usize> = Vec::new();
    let mut c: usize = 0;
    while c < n
        invariant
            c <= n,
            v@ == Seq::new(c as nat, |i: int| i as usize),
        decreases n - c,
    {
        v.push(c);
        assert(v@ =~= Seq::new((c + 1) as nat, |i: int| i as usize));
        c += 1;
    }
    v
}

/// The set of the single core a thread is pinned to.
pub fn single_set(core: usize) -> (v: Vec<usize>)
    ensures
        v@ == seq![core],
{
    let mut v: Vec<usize> = Vec::new();
    v.push(core);
    assert(v@ =~= seq![core]);
    v
}

} // verus!
