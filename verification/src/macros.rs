//! The safe way to bring a built value under the protection of the collector.
use vstd::prelude::*;
use crate::heap::capacity;
use crate::heap::laws::lemma_retains_chain;
use crate::mem::{Build, Gc, P};

verus! {

/// Declares a local root: builds `b` and returns a registered handle that
/// holds the value.
///
/// The handle is registered before the value is built, so that the value is
/// rooted as soon as it exists and the context is free again. For as long as
/// the handle stays registered the collector takes the value to be reachable.
/// The handle has to be unregistered before any handle registered earlier.
pub fn local<B: Build>(gc: &mut Gc, b: B) -> (p: P<B::Result>)
    requires
        old(gc).wf(),
        b.buildable(old(gc)@),
        old(gc)@.cells.len() + b.blocks() <= capacity(),
    ensures
        final(gc).wf(),
        p.rooted_in(final(gc)@),
        p.address() == old(gc)@.depth() + 1,
        final(gc)@.depth() == old(gc)@.depth() + 1,
        final(gc)@.roots.drop_last() == old(gc)@.roots,
        final(gc)@.protected(final(gc)@.roots.last()),
        final(gc)@.shape(final(gc)@.roots.last()) == b.describes(old(gc)@),
        final(gc)@.retains(old(gc)@, old(gc)@.depth()),
        final(gc)@.cells.len() == old(gc)@.cells.len() + b.blocks(),
{
    let ghost s0 = gc@;
    let mut p = P::new();
    p.register(gc);
    let ghost s1 = gc@;
    proof {
        b.lemma_stable(s0, s1);
    }
    let r = b.build(gc);
    let ghost s2 = gc@;
    p.root(gc, r);
    proof {
        let s3 = gc@;
        lemma_retains_chain(s0, s1, s2, s0.depth(), s1.depth(), s0.depth());
        lemma_retains_chain(s0, s2, s3, s0.depth(), s0.depth(), s0.depth());
        assert(s3.roots.drop_last() =~= s0.roots);
        assert(s3.roots.last() == r.raw);
    }
    p
}

} // verus!
