//! The decisions of a resizable thread pool: how to reach a size, and which
//! worker an id names. The threads themselves are run by the caller.
use vstd::prelude::*;

verus! {

/// What resizing a pool takes.
#[derive(Debug, Clone, Copy, PartialEq, Eq, Structural)]
pub enum Resize {
    /// The pool has that size already.
    Keep,
    /// Spawn this many workers, one at a time.
    Grow(usize),
    /// Send this many kill messages, one at a time.
    Shrink(usize),
}

/// The plan that takes a pool of `threads` workers to `size` workers.
pub open spec fn resize_spec(size: nat, threads: nat) -> Resize {
    if size == threads {
        Resize::Keep
    } else if size > threads {
        Resize::Grow((size - threads) as usize)
    } else {
        Resize::Shrink((threads - size) as usize)
    }
}

/// The number of workers the pool counts once a plan has been carried out.
pub open spec fn threads_after(threads: nat, plan: Resize) -> int {
    match plan {
        Resize::Keep => threads as int,
        Resize::Grow(n) => threads + n,
        Resize::Shrink(n) => threads - n,
    }
}

/// How to resize a pool of `threads` workers to `size`; a pool is never
/// resized to no workers.
pub fn resize_plan(size: usize, threads: usize) -> (r: Resize)
    requires
        size > 0,
    ensures
        r == resize_spec(size as nat, threads as nat),
{
    if size == threads {
        Resize::Keep
    } else if size > threads {
        Resize::Grow(size - threads)
    } else {
        Resize::Shrink(threads - size)
    }
}

/// Carrying out the plan for a size leaves the pool counting exactly that
/// many workers.
pub proof fn lemma_resize_reaches_size(size: nat, threads: nat)
    requires
        size > 0,
        size <= usize::MAX,
        threads <= usize::MAX,
    ensures
        threads_after(threads, resize_spec(size, threads)) == size,
{
}

/// The position of the first worker with the id `id`, if any.
pub fn worker_position(ids: &[usize], id: usize) -> (r: Option<usize>)
    ensures
        match r {
            Some(i) => i < ids@.len() && ids@[i as int] == id && forall|k: int| 0 <= k < i ==> ids@[k] != id,
            None => forall|k: int| 0 <= k < ids@.len() ==> ids@[k] != id,
        },
{
    let mut i: usize = 0;
    while i < ids.len()
        invariant
            i <= ids@.len(),
            forall|k: int| 0 <= k < i ==> ids@[k] != id,
        decreases ids.len() - i,
    {
        if ids[i] == id {
            return Some(i);
        }
        i = i + 1;
    }
    None
}

} // verus!
