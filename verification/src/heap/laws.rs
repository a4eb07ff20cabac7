//! What follows from the definitions of the heap: what the collector keeps,
//! what an allocation takes away, and what stays true of a value while its
//! root frame stays.
use vstd::prelude::*;
use crate::heap::{address, capacity, index_of, points, pop_roots, push_roots, reach, refers, rooted, Heap, Object, Shape};
use crate::raw::Value;

verus! {

/// What the collector finds is there.
pub proof fn lemma_reach_live(h: Heap, n: int, k: int)
    requires
        h.wf(),
        reach(h.cells, h.roots, n, k),
    ensures
        h.live(k),
{
    if rooted(h.roots, n, k) {
        let i = choose|i: int| 0 <= i < n && i < h.roots.len() && points(#[trigger] h.roots[i], k);
        assert(h.valid(h.roots[i]));
    } else {
        let j = choose|j: int|
            k < j < h.cells.len() && reach(h.cells, h.roots, n, j) && #[trigger] refers(h.cells, j, k);
        let f = choose|f: int|
            0 <= f < h.cells[j].unwrap().fields.len() && points(
                #[trigger] h.cells[j].unwrap().fields[f],
                k,
            );
        assert(h.older(h.cells[j].unwrap().fields[f], j));
    }
}

/// What the collector finds from some root frames it finds from more.
pub proof fn lemma_reach_more_roots(cells: Seq<Option<Object>>, roots: Seq<Value>, n: int, m: int, k: int)
    requires
        n <= m,
        reach(cells, roots, n, k),
    ensures
        reach(cells, roots, m, k),
    decreases cells.len() - k,
{
    if rooted(roots, n, k) {
        let i = choose|i: int| 0 <= i < n && i < roots.len() && points(#[trigger] roots[i], k);
        assert(0 <= i < m && i < roots.len() && points(roots[i], k));
    } else {
        let j = choose|j: int|
            k < j < cells.len() && reach(cells, roots, n, j) && #[trigger] refers(cells, j, k);
        lemma_reach_more_roots(cells, roots, n, m, j);
    }
}

/// Two heaps whose `n` oldest root slots agree, and which agree on every
/// block that the collector finds from them in the first, have the collector
/// find the same blocks.
pub proof fn lemma_reach_retained(old: Heap, new: Heap, n: int, k: int)
    requires
        old.wf(),
        new.retains(old, n),
    ensures
        reach(new.cells, new.roots, n, k) == reach(old.cells, old.roots, n, k),
    decreases new.cells.len() - k,
{
    if reach(new.cells, new.roots, n, k) {
        if rooted(new.roots, n, k) {
            let i = choose|i: int|
                0 <= i < n && i < new.roots.len() && points(#[trigger] new.roots[i], k);
            assert(new.roots[i] == old.roots[i]);
            assert(old.valid(old.roots[i]));
            assert(0 <= i < n && i < old.roots.len() && points(old.roots[i], k));
            assert(rooted(old.roots, n, k));
        } else {
            let j = choose|j: int|
                k < j < new.cells.len() && reach(new.cells, new.roots, n, j) && #[trigger] refers(
                    new.cells,
                    j,
                    k,
                );
            lemma_reach_retained(old, new, n, j);
            assert(new.cells[j] == old.cells[j]);
            assert(refers(old.cells, j, k));
            lemma_reach_live(old, n, j);
            let f = choose|f: int|
                0 <= f < old.cells[j].unwrap().fields.len() && points(
                    #[trigger] old.cells[j].unwrap().fields[f],
                    k,
                );
            assert(old.older(old.cells[j].unwrap().fields[f], j));
        }
        assert(reach(old.cells, old.roots, n, k));
    }
    if reach(old.cells, old.roots, n, k) {
        if rooted(old.roots, n, k) {
            let i = choose|i: int|
                0 <= i < n && i < old.roots.len() && points(#[trigger] old.roots[i], k);
            assert(new.roots[i] == old.roots[i]);
            assert(0 <= i < n && i < new.roots.len() && points(new.roots[i], k));
        } else {
            let j = choose|j: int|
                k < j < old.cells.len() && reach(old.cells, old.roots, n, j) && #[trigger] refers(
                    old.cells,
                    j,
                    k,
                );
            lemma_reach_retained(old, new, n, j);
            assert(new.cells[j] == old.cells[j]);
            assert(refers(new.cells, j, k));
        }
        assert(reach(new.cells, new.roots, n, k));
    }
}

/// The shapes of the fields of a block are the shapes of its fields, one by
/// one.
pub proof fn lemma_shapes(h: Heap, fields: Seq<Value>, bound: int)
    requires
        0 <= bound,
        forall|f: int| 0 <= f < fields.len() ==> h.older(#[trigger] fields[f], bound),
    ensures
        h.shapes(fields, bound).len() == fields.len(),
        forall|f: int| 0 <= f < fields.len() ==> #[trigger] h.shapes(fields, bound)[f] == h.shape(fields[f]),
    decreases fields.len(),
{
    if fields.len() > 0 {
        let front = fields.drop_last();
        assert forall|f: int| 0 <= f < front.len() implies h.older(#[trigger] front[f], bound) by {
            assert(front[f] == fields[f]);
        }
        lemma_shapes(h, front, bound);
        assert(h.older(fields[fields.len() - 1], bound));
        assert forall|f: int| 0 <= f < fields.len() implies #[trigger] h.shapes(fields, bound)[f]
            == h.shape(fields[f]) by {
            if f < front.len() {
                assert(front[f] == fields[f]);
            }
        }
    }
}

/// A field of a block that the collector finds is itself protected.
pub proof fn lemma_reach_field(h: Heap, n: int, k: int, f: int)
    requires
        h.wf(),
        reach(h.cells, h.roots, n, k),
        0 <= f < h.cells[k].unwrap().fields.len(),
    ensures
        h.live(k),
        h.protects(n, h.cells[k].unwrap().fields[f]),
        h.older(h.cells[k].unwrap().fields[f], k),
{
    lemma_reach_live(h, n, k);
    let v = h.cells[k].unwrap().fields[f];
    assert(h.older(v, k));
    if !v.is_immediate() {
        assert(points(h.cells[k].unwrap().fields[f], index_of(v)));
        assert(refers(h.cells, k, index_of(v)));
    }
}

/// What was protected by the `n` oldest root frames of `old`, and has been
/// retained since, is still protected by them, is valid, and stands for what
/// it stood for.
pub proof fn lemma_retained(old: Heap, new: Heap, n: int, v: Value)
    requires
        old.wf(),
        new.retains(old, n),
        old.protects(n, v),
    ensures
        new.protects(n, v),
        new.valid(v),
        old.valid(v),
        new.shape(v) == old.shape(v),
    decreases
            (if old.is_block(v) {
                index_of(v) + 1
            } else {
                0
            }),
{
    if !v.is_immediate() {
        let k = index_of(v);
        lemma_reach_retained(old, new, n, k);
        lemma_reach_live(old, n, k);
        assert(new.cells[k] == old.cells[k]);
        let o = old.cells[k].unwrap();
        assert forall|f: int| 0 <= f < o.fields.len() implies old.older(#[trigger] o.fields[f], k)
            && new.older(o.fields[f], k) && new.shape(o.fields[f]) == old.shape(o.fields[f]) by {
            lemma_reach_field(old, n, k, f);
            lemma_retained(old, new, n, o.fields[f]);
        }
        lemma_shapes(old, o.fields, k);
        lemma_shapes(new, o.fields, k);
        assert(new.shapes(o.fields, k) =~= old.shapes(o.fields, k));
    }
}

/// Retaining twice is retaining, by as many root frames as both steps kept.
pub proof fn lemma_retains_chain(a: Heap, b: Heap, c: Heap, n_ab: int, n_bc: int, n: int)
    requires
        a.wf(),
        b.retains(a, n_ab),
        c.retains(b, n_bc),
        0 <= n <= n_ab,
        n <= n_bc,
    ensures
        c.retains(a, n),
{
    lemma_retains_fewer(a, b, n_ab, n);
    lemma_retains_fewer(b, c, n_bc, n);
    assert forall|k: int| #[trigger] reach(a.cells, a.roots, n, k) implies c.cells[k]
        == a.cells[k] by {
        lemma_reach_retained(a, b, n, k);
        assert(reach(b.cells, b.roots, n, k));
        assert(c.cells[k] == b.cells[k]);
        assert(b.cells[k] == a.cells[k]);
    }
    assert forall|i: int| 0 <= i < n implies #[trigger] c.roots[i] == a.roots[i] by {
        assert(c.roots[i] == b.roots[i]);
        assert(b.roots[i] == a.roots[i]);
    }
}

/// What is retained by some root frames is retained by fewer.
pub proof fn lemma_retains_fewer(a: Heap, b: Heap, n: int, m: int)
    requires
        b.retains(a, n),
        0 <= m <= n,
    ensures
        b.retains(a, m),
{
    assert forall|k: int| #[trigger] reach(a.cells, a.roots, m, k) implies b.cells[k]
        == a.cells[k] by {
        lemma_reach_more_roots(a.cells, a.roots, m, n, k);
    }
}

/// Registering a root frame keeps the heap well-formed and takes nothing away.
pub proof fn lemma_push_root(h: Heap, v: Value)
    requires
        h.wf(),
        h.valid(v),
    ensures
        h.push_root(v).wf(),
        h.push_root(v).retains(h, h.depth()),
        h.push_root(v).protected(v),
{
    let g = h.push_root(v);
    assert forall|i: int| 0 <= i < g.roots.len() implies g.valid(#[trigger] g.roots[i]) by {
        if i < h.roots.len() {
            assert(g.roots[i] == h.roots[i]);
        }
    }
    assert forall|j: int, f: int|
        g.live(j) && 0 <= f < g.cells[j].unwrap().fields.len() implies g.older(
        #[trigger] g.cells[j].unwrap().fields[f],
        j,
    ) by {
        assert(h.older(h.cells[j].unwrap().fields[f], j));
    }
    if !v.is_immediate() {
        assert(points(g.roots[h.depth()], index_of(v)));
    }
}

/// Overwriting the slot of the frame at address `d` keeps the heap
/// well-formed and takes nothing away from the frames below it.
pub proof fn lemma_set_root(h: Heap, d: int, v: Value)
    requires
        h.wf(),
        1 <= d <= h.depth(),
        h.valid(v),
    ensures
        h.set_root(d, v).wf(),
        h.set_root(d, v).retains(h, d - 1),
        h.set_root(d, v).protects(d, v),
{
    let g = h.set_root(d, v);
    assert forall|i: int| 0 <= i < g.roots.len() implies g.valid(#[trigger] g.roots[i]) by {
        if i != d - 1 {
            assert(g.roots[i] == h.roots[i]);
        }
    }
    assert forall|j: int, f: int|
        g.live(j) && 0 <= f < g.cells[j].unwrap().fields.len() implies g.older(
        #[trigger] g.cells[j].unwrap().fields[f],
        j,
    ) by {
        assert(h.older(h.cells[j].unwrap().fields[f], j));
    }
    if !v.is_immediate() {
        assert(points(g.roots[d - 1], index_of(v)));
    }
}

/// Removing the chain head keeps the heap well-formed and takes nothing away
/// from the frames below it.
pub proof fn lemma_pop_root(h: Heap)
    requires
        h.wf(),
        h.depth() > 0,
    ensures
        h.pop_root().wf(),
        h.pop_root().retains(h, h.depth() - 1),
        h.pop_root().depth() == h.depth() - 1,
{
    let g = h.pop_root();
    assert forall|i: int| 0 <= i < g.roots.len() implies g.valid(#[trigger] g.roots[i]) by {
        assert(g.roots[i] == h.roots[i]);
    }
    assert forall|j: int, f: int|
        g.live(j) && 0 <= f < g.cells[j].unwrap().fields.len() implies g.older(
        #[trigger] g.cells[j].unwrap().fields[f],
        j,
    ) by {
        assert(h.older(h.cells[j].unwrap().fields[f], j));
    }
}

/// A collection keeps the heap well-formed, keeps what the root chain
/// protects, and leaves no other block.
pub proof fn lemma_collect(h: Heap)
    requires
        h.wf(),
    ensures
        h.collect().wf(),
        h.collect().retains(h, h.depth()),
        forall|k: int| h.collect().live(k) <==> reach(h.cells, h.roots, h.depth(), k),
{
    let g = h.collect();
    let n = h.depth();
    assert forall|k: int| g.live(k) <==> reach(h.cells, h.roots, n, k) by {
        if reach(h.cells, h.roots, n, k) {
            lemma_reach_live(h, n, k);
        }
    }
    assert forall|i: int| 0 <= i < g.roots.len() implies g.valid(#[trigger] g.roots[i]) by {
        let v = h.roots[i];
        assert(h.valid(v));
        if !v.is_immediate() {
            assert(points(h.roots[i], index_of(v)));
            assert(rooted(h.roots, n, index_of(v)));
        }
    }
    assert forall|j: int, f: int|
        g.live(j) && 0 <= f < g.cells[j].unwrap().fields.len() implies g.older(
        #[trigger] g.cells[j].unwrap().fields[f],
        j,
    ) by {
        lemma_reach_field(h, n, j, f);
    }
}

/// An allocation keeps the heap well-formed and keeps what the root chain
/// protects, provided that the root chain protects what goes into the new
/// block. The new block is there and stands for its tag and for what its
/// fields stood for.
pub proof fn lemma_allocate(h: Heap, tag: u8, fields: Seq<Value>)
    requires
        h.wf(),
        h.cells.len() < capacity(),
        forall|f: int| 0 <= f < fields.len() ==> h.protected(#[trigger] fields[f]),
    ensures
        h.allocate(tag, fields).wf(),
        h.allocate(tag, fields).retains(h, h.depth()),
        h.allocate(tag, fields).newest().0 == address(h.cells.len() as int),
        h.allocate(tag, fields).is_block(h.allocate(tag, fields).newest()),
        h.allocate(tag, fields).shape(h.allocate(tag, fields).newest()) == Shape::Block(
            tag,
            Seq::new(fields.len(), |f: int| h.shape(fields[f])),
        ),
{
    let c = h.collect();
    let g = h.allocate(tag, fields);
    let n = h.depth();
    let top = h.cells.len() as int;
    lemma_collect(h);
    assert(g.cells[top] == Some(Object { tag, fields }));
    assert forall|k: int| 0 <= k < top implies g.cells[k] == c.cells[k] by {}
    assert(g.retains(h, n));
    assert forall|i: int| 0 <= i < g.roots.len() implies g.valid(#[trigger] g.roots[i]) by {
        assert(c.valid(c.roots[i]));
    }
    assert forall|f: int| 0 <= f < fields.len() implies g.older(#[trigger] fields[f], top)
        && g.shape(fields[f]) == h.shape(fields[f]) by {
        lemma_retained(h, g, n, fields[f]);
        if !fields[f].is_immediate() {
            lemma_reach_live(h, n, index_of(fields[f]));
        }
    }
    assert forall|j: int, f: int|
        g.live(j) && 0 <= f < g.cells[j].unwrap().fields.len() implies g.older(
        #[trigger] g.cells[j].unwrap().fields[f],
        j,
    ) by {
        if j < top {
            assert(c.older(c.cells[j].unwrap().fields[f], j));
        }
    }
    let v = g.newest();
    assert(v.0 == address(top));
    assert(index_of(v) == top);
    lemma_shapes(g, fields, top);
    assert(g.shapes(fields, top) =~= Seq::new(fields.len(), |f: int| h.shape(fields[f])));
}

/// A pointer that the root chain does not protect does not outlive an
/// allocation: afterwards every valid pointer is the new block or was
/// protected before.
pub proof fn lemma_unprotected_is_reclaimed(h: Heap, tag: u8, fields: Seq<Value>, v: Value)
    requires
        h.wf(),
        v.is_pointer(),
        h.allocate(tag, fields).valid(v),
    ensures
        v == h.allocate(tag, fields).newest() || h.protected(v),
{
    lemma_collect(h);
    let g = h.allocate(tag, fields);
    let k = index_of(v);
    if k < h.cells.len() {
        assert(g.cells[k] == h.collect().cells[k]);
        assert(h.collect().live(k));
    } else {
        assert(v.0 == address(k));
    }
}

/// Root frames that are registered and then removed in the reverse order
/// leave the chain, head and slots, as it was.
pub proof fn lemma_chain_balance(h: Heap, slots: Seq<Value>)
    ensures
        pop_roots(push_roots(h, slots), slots.len()) == h,
        push_roots(h, slots).depth() == h.depth() + slots.len(),
    decreases slots.len(),
{
    if slots.len() > 0 {
        let front = slots.drop_last();
        lemma_chain_balance(h, front);
        let mid = push_roots(h, front);
        assert(mid.push_root(slots.last()).pop_root().roots =~= mid.roots);
        assert(mid.push_root(slots.last()).pop_root() == mid);
    }
}

/// Storing a valid value into a block that is younger than it keeps the heap
/// well-formed.
pub proof fn lemma_store(h: Heap, k: int, i: int, v: Value)
    requires
        h.wf(),
        h.live(k),
        0 <= i < h.cells[k].unwrap().fields.len(),
        h.older(v, k),
    ensures
        h.store(k, i, v).wf(),
        forall|w: Value| h.store(k, i, v).valid(w) == h.valid(w),
{
    let g = h.store(k, i, v);
    assert forall|m: int| g.live(m) == h.live(m) by {}
    assert forall|w: Value| g.valid(w) == h.valid(w) by {}
    assert forall|r: int| 0 <= r < g.roots.len() implies g.valid(#[trigger] g.roots[r]) by {
        assert(h.valid(h.roots[r]));
    }
    assert forall|j: int, f: int|
        g.live(j) && 0 <= f < g.cells[j].unwrap().fields.len() implies g.older(
        #[trigger] g.cells[j].unwrap().fields[f],
        j,
    ) by {
        if j == k && f == i {
        } else {
            assert(h.older(h.cells[j].unwrap().fields[f], j));
        }
    }
}

/// What a valid value stands for, one level deep: an integer stands for
/// itself, and a block for its tag and for what each of its fields stands
/// for.
pub proof fn lemma_shape(h: Heap, v: Value)
    requires
        h.wf(),
        h.valid(v),
    ensures
        v.is_immediate() ==> h.shape(v) == Shape::Imm(v.as_int()),
        h.is_block(v) ==> h.shape(v) == Shape::Block(
            h.object(v).tag,
            Seq::new(h.object(v).fields.len(), |f: int| h.shape(h.object(v).fields[f])),
        ),
        h.is_block(v) ==> h.shape(v)->Block_1.len() == h.object(v).fields.len(),
        forall|f: int|
            #![trigger h.shape(h.object(v).fields[f])]
            #![trigger h.shape(v)->Block_1[f]]
            h.is_block(v) && 0 <= f < h.object(v).fields.len() ==> h.shape(v)->Block_1[f]
                == h.shape(h.object(v).fields[f]),
        forall|f: int|
            h.is_block(v) && 0 <= f < h.object(v).fields.len() ==> h.valid(
                #[trigger] h.object(v).fields[f],
            ),
{
    if h.is_block(v) {
        let k = index_of(v);
        let o = h.object(v);
        assert forall|f: int| 0 <= f < o.fields.len() implies h.older(#[trigger] o.fields[f], k) by {
            assert(h.older(h.cells[k].unwrap().fields[f], k));
        }
        lemma_shapes(h, o.fields, k);
        assert(h.shapes(o.fields, k) =~= Seq::new(
            o.fields.len(),
            |f: int| h.shape(h.object(v).fields[f]),
        ));
    }
}

} // verus!
