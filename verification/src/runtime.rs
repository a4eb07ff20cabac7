//! A stand-in for the managed runtime: its heap, its collector and the head
//! of its root chain.
//!
//! The collector of this runtime is as hostile as a correct one may be. Every
//! allocation runs a full collection first, and the collection reclaims every
//! block that it does not find from the root chain. Code that is correct
//! against it never holds an unrooted pointer across an allocation.
use vstd::prelude::*;
use crate::heap::{address, capacity, index_of, points, reach, refers, rooted, Heap, Object};
use crate::heap::laws::{
    lemma_allocate, lemma_collect, lemma_pop_root, lemma_push_root, lemma_set_root, lemma_store,
};
use crate::mem::CamlRootsBlock;
use crate::raw::{val_int, Value};

verus! {

/// A block of the heap.
pub struct Block {
    pub tag: u8,
    pub fields: Vec<Value>,
}

impl View for Block {
    type V = Object;

    open spec fn view(&self) -> Object {
        Object { tag: self.tag, fields: self.fields@ }
    }
}

/// The runtime: the blocks in the order of their allocation, the registered
/// root frames from the oldest to the chain head, and the address of the
/// chain head.
pub struct Runtime {
    cells: Vec<Option<Block>>,
    roots: Vec<CamlRootsBlock>,
    caml_local_roots: usize,
}

/// A cell of the heap as the model sees it.
pub open spec fn cell_view(c: Option<Block>) -> Option<Object> {
    match c {
        Some(b) => Some(b@),
        None => None,
    }
}

impl View for Runtime {
    type V = Heap;

    closed spec fn view(&self) -> Heap {
        Heap {
            cells: Seq::new(self.cells@.len(), |k: int| cell_view(self.cells@[k])),
            roots: Seq::new(self.roots@.len(), |i: int| self.roots@[i].tables[0]),
        }
    }
}

/// The collector has found block `k` once it has looked at the root chain and
/// at the blocks from `from` upwards.
spec fn found(cells: Seq<Option<Object>>, roots: Seq<Value>, n: int, from: int, k: int) -> bool {
    &&& 0 <= k < cells.len()
    &&& (rooted(roots, n, k) || exists|j: int|
        from <= j < cells.len() && k < j && reach(cells, roots, n, j) && #[trigger] refers(cells, j, k))
}

proof fn lemma_found_all(cells: Seq<Option<Object>>, roots: Seq<Value>, n: int, from: int, k: int)
    requires
        from <= k + 1,
    ensures
        found(cells, roots, n, from, k) == reach(cells, roots, n, k),
{
}

impl Runtime {
    /// The chain head is the youngest frame, and each frame links to the one
    /// registered before it.
    pub closed spec fn linked(&self) -> bool {
        &&& self.caml_local_roots == self.roots@.len()
        &&& forall|i: int|
            0 <= i < self.roots@.len() ==> (#[trigger] self.roots@[i]).next == i
                && self.roots@[i].ntables == 1 && self.roots@[i].nitems == 1
    }

    /// The heap is well-formed and the root chain is linked.
    pub open spec fn wf(&self) -> bool {
        self@.wf() && self.linked()
    }

    /// A runtime with an empty heap and an empty root chain.
    pub fn new() -> (rt: Runtime)
        ensures
            rt.wf(),
            rt@ == Heap::empty(),
    {
        let rt = Runtime { cells: Vec::new(), roots: Vec::new(), caml_local_roots: 0 };
        assert(rt@.cells =~= Seq::empty());
        assert(rt@.roots =~= Seq::empty());
        rt
    }

    /// The address of the chain head, 0 for the empty chain.
    pub fn local_roots(&self) -> (head: usize)
        requires
            self.wf(),
        ensures
            head == self@.depth(),
    {
        self.caml_local_roots
    }
}

impl Runtime {
    /// Makes `frame` the chain head and returns its address.
    ///
    /// The frame has to link to the present chain head, and its slot has to
    /// hold a value that is valid now.
    pub fn push_frame(&mut self, frame: CamlRootsBlock) -> (at: usize)
        requires
            old(self).wf(),
            frame.next == old(self)@.depth(),
            frame.ntables == 1,
            frame.nitems == 1,
            old(self)@.valid(frame.tables[0]),
        ensures
            final(self).wf(),
            final(self)@ == old(self)@.push_root(frame.tables[0]),
            final(self)@.retains(old(self)@, old(self)@.depth()),
            at == final(self)@.depth(),
            at == old(self)@.depth() + 1,
    {
        let ghost before = self@;
        self.roots.push(frame);
        self.caml_local_roots = self.roots.len();
        proof {
            assert(self@.roots =~= before.push_root(frame.tables[0]).roots);
            assert(self@.cells =~= before.cells);
            lemma_push_root(before, frame.tables[0]);
        }
        self.caml_local_roots
    }

    /// Takes the frame at address `at` out of the chain and puts the chain
    /// head back to the frame that it links to. Only the chain head can
    /// leave.
    pub fn pop_frame(&mut self, at: usize)
        requires
            old(self).wf(),
            at == old(self)@.depth(),
            at >= 1,
        ensures
            final(self).wf(),
            final(self)@ == old(self)@.pop_root(),
            final(self)@.retains(old(self)@, old(self)@.depth() - 1),
            final(self)@.depth() == old(self)@.depth() - 1,
    {
        let ghost before = self@;
        match self.roots.pop() {
            Some(frame) => {
                self.caml_local_roots = frame.next;
            },
            None => {},
        }
        proof {
            assert(self@.roots =~= before.pop_root().roots);
            assert(self@.cells =~= before.cells);
            lemma_pop_root(before);
        }
    }

    /// Overwrites the slot of the frame at address `at`.
    pub fn set_slot(&mut self, at: usize, v: Value)
        requires
            old(self).wf(),
            1 <= at <= old(self)@.depth(),
            old(self)@.valid(v),
        ensures
            final(self).wf(),
            final(self)@ == old(self)@.set_root(at as int, v),
            final(self)@.retains(old(self)@, at - 1),
    {
        let ghost before = self@;
        let frame = &mut self.roots[at - 1];
        frame.tables = [v];
        proof {
            assert(self@.roots =~= before.set_root(at as int, v).roots);
            assert(self@.cells =~= before.cells);
            lemma_set_root(before, at as int, v);
        }
    }

    /// Reads the slot of the frame at address `at`.
    pub fn slot(&self, at: usize) -> (v: Value)
        requires
            self.wf(),
            1 <= at <= self@.depth(),
        ensures
            v == self@.roots[at - 1],
            self@.valid(v),
            self@.protects(at as int, v),
    {
        let v = self.roots[at - 1].tables[0];
        proof {
            if !v.is_immediate() {
                assert(points(self@.roots[at - 1], index_of(v)));
            }
        }
        v
    }
}

/// The number of the block that the pointer `v` refers to.
fn block_index(v: Value) -> (k: usize)
    requires
        v.0 > 0,
        points(v, index_of(v)),
    ensures
        k == index_of(v),
{
    (v.0 / 8 - 1) as usize
}

impl Runtime {
    /// The mark phase: tells for each block whether the collector finds it
    /// from the root chain.
    fn mark(&self) -> (marks: Vec<bool>)
        requires
            self.wf(),
        ensures
            marks@.len() == self@.cells.len(),
            forall|k: int|
                0 <= k < marks@.len() ==> marks@[k] == reach(
                    self@.cells,
                    self@.roots,
                    self@.depth(),
                    k,
                ),
    {
        let n = self.cells.len();
        let ghost cells = self@.cells;
        let ghost roots = self@.roots;
        let ghost depth = self@.depth();
        let mut marks: Vec<bool> = Vec::new();
        let mut k: usize = 0;
        while k < n
            invariant
                k <= n,
                marks@.len() == k,
                forall|m: int| 0 <= m < k ==> !marks@[m],
            decreases n - k,
        {
            marks.push(false);
            k = k + 1;
        }
        let mut i: usize = 0;
        while i < self.roots.len()
            invariant
                self.wf(),
                cells == self@.cells,
                roots == self@.roots,
                n == cells.len(),
                i <= self.roots@.len(),
                self.roots@.len() == roots.len(),
                marks@.len() == n,
                forall|m: int| 0 <= m < n ==> marks@[m] == rooted(roots, i as int, m),
            decreases self.roots@.len() - i,
        {
            let v = self.roots[i].tables[0];
            assert(v == roots[i as int]);
            assert(self@.valid(roots[i as int]));
            let ghost before = marks@;
            if v.is_block() {
                let at = block_index(v);
                marks.set(at, true);
            }
            proof {
                assert forall|m: int| 0 <= m < n implies marks@[m] == rooted(
                    roots,
                    i as int + 1,
                    m,
                ) by {
                    if rooted(roots, i as int + 1, m) {
                        let w = choose|w: int|
                            0 <= w < i as int + 1 && w < roots.len() && points(
                                #[trigger] roots[w],
                                m,
                            );
                        if w < i {
                            assert(rooted(roots, i as int, m));
                        }
                    }
                    if rooted(roots, i as int, m) {
                        let w = choose|w: int|
                            0 <= w < i as int && w < roots.len() && points(#[trigger] roots[w], m);
                        assert(0 <= w < i as int + 1 && w < roots.len() && points(roots[w], m));
                    }
                    if points(v, m) {
                        assert(points(roots[i as int], m));
                    }
                }
            }
            i = i + 1;
        }
        let mut j: usize = n;
        while j > 0
            invariant
                self.wf(),
                cells == self@.cells,
                roots == self@.roots,
                depth == roots.len(),
                n == cells.len(),
                n == self.cells@.len(),
                j <= n,
                marks@.len() == n,
                forall|m: int| 0 <= m < n ==> marks@[m] == found(cells, roots, depth, j as int, m),
            decreases j,
        {
            j = j - 1;
            proof {
                lemma_found_all(cells, roots, depth, j as int + 1, j as int);
            }
            let marked = marks[j];
            match &self.cells[j] {
                Some(block) => {
                    if marked {
                        assert(cells[j as int] == Some(block@));
                        let mut f: usize = 0;
                        while f < block.fields.len()
                            invariant
                                self.wf(),
                                cells == self@.cells,
                                roots == self@.roots,
                                depth == roots.len(),
                                n == cells.len(),
                                j < n,
                                cells[j as int] == Some(block@),
                                reach(cells, roots, depth, j as int),
                                f <= block.fields@.len(),
                                marks@.len() == n,
                                forall|m: int|
                                    0 <= m < n ==> marks@[m] == (found(
                                        cells,
                                        roots,
                                        depth,
                                        j as int + 1,
                                        m,
                                    ) || exists|g: int|
                                        0 <= g < f && points(#[trigger] block.fields@[g], m)),
                            decreases block.fields@.len() - f,
                        {
                            let v = block.fields[f];
                            assert(self@.live(j as int));
                            assert(self@.older(self@.cells[j as int].unwrap().fields[f as int], j as int));
                            let ghost before = marks@;
                            if v.is_block() {
                                let at = block_index(v);
                                marks.set(at, true);
                            }
                            proof {
                                assert forall|m: int| 0 <= m < n implies marks@[m] == (found(
                                    cells,
                                    roots,
                                    depth,
                                    j as int + 1,
                                    m,
                                ) || exists|g: int|
                                    0 <= g < f + 1 && points(#[trigger] block.fields@[g], m)) by {
                                    let was = exists|g: int|
                                        0 <= g < f && points(#[trigger] block.fields@[g], m);
                                    let is = exists|g: int|
                                        0 <= g < f + 1 && points(#[trigger] block.fields@[g], m);
                                    if is {
                                        let g = choose|g: int|
                                            0 <= g < f + 1 && points(
                                                #[trigger] block.fields@[g],
                                                m,
                                            );
                                        if g < f {
                                            assert(was);
                                        }
                                    }
                                    if was {
                                        let g = choose|g: int|
                                            0 <= g < f && points(#[trigger] block.fields@[g], m);
                                        assert(0 <= g < f + 1 && points(block.fields@[g], m));
                                    }
                                    if points(v, m) {
                                        assert(points(block.fields@[f as int], m));
                                    }
                                }
                            }
                            f = f + 1;
                        }
                        proof {
                            assert forall|m: int| 0 <= m < n implies marks@[m] == found(
                                cells,
                                roots,
                                depth,
                                j as int,
                                m,
                            ) by {
                                if exists|g: int|
                                    0 <= g < block.fields@.len() && points(
                                        #[trigger] block.fields@[g],
                                        m,
                                    ) {
                                    let g = choose|g: int|
                                        0 <= g < block.fields@.len() && points(
                                            #[trigger] block.fields@[g],
                                            m,
                                        );
                                    assert(self@.older(
                                        self@.cells[j as int].unwrap().fields[g],
                                        j as int,
                                    ));
                                    assert(points(cells[j as int].unwrap().fields[g], m));
                                    assert(refers(cells, j as int, m));
                                }
                            }
                        }
                    }
                },
                None => {},
            }
        }
        proof {
            assert forall|m: int| 0 <= m < n implies marks@[m] == reach(cells, roots, depth, m) by {
                lemma_found_all(cells, roots, depth, 0, m);
            }
        }
        marks
    }
}

impl Runtime {
    /// The sweep phase: reclaims every block that is not marked.
    fn sweep(&mut self, marks: &Vec<bool>)
        requires
            old(self).wf(),
            marks@.len() == old(self)@.cells.len(),
            forall|k: int|
                0 <= k < marks@.len() ==> marks@[k] == reach(
                    old(self)@.cells,
                    old(self)@.roots,
                    old(self)@.depth(),
                    k,
                ),
        ensures
            final(self).wf(),
            final(self)@ == old(self)@.collect(),
    {
        let ghost before = self@;
        let n = self.cells.len();
        let mut k: usize = 0;
        while k < n
            invariant
                k <= n,
                n == before.cells.len(),
                self.cells@.len() == n,
                self.roots == old(self).roots,
                self.caml_local_roots == old(self).caml_local_roots,
                old(self).linked(),
                before == old(self)@,
                marks@.len() == n,
                forall|m: int|
                    0 <= m < n ==> marks@[m] == reach(before.cells, before.roots, before.depth(), m),
                forall|m: int|
                    0 <= m < n ==> #[trigger] self@.cells[m] == (if m < k {
                        before.collect().cells[m]
                    } else {
                        before.cells[m]
                    }),
            decreases n - k,
        {
            let ghost prev = self@;
            if !marks[k] {
                self.cells.set(k, None);
            }
            proof {
                assert forall|m: int| 0 <= m < n implies #[trigger] self@.cells[m] == (if m < k + 1 {
                    before.collect().cells[m]
                } else {
                    before.cells[m]
                }) by {
                    if m != k {
                        assert(self@.cells[m] == prev.cells[m]);
                    }
                }
            }
            k = k + 1;
        }
        proof {
            assert(self@.cells =~= before.collect().cells);
            assert(self@.roots =~= before.roots);
            lemma_collect(before);
        }
    }

    /// Requests a block of `size` fields with the tag `tag`.
    ///
    /// The request runs a collection first. The fields of the new block hold
    /// the immediate 0; they are to be filled by [`Runtime::caml_modify`].
    pub fn caml_alloc(&mut self, size: usize, tag: u8) -> (block: Value)
        requires
            old(self).wf(),
            old(self)@.cells.len() < capacity(),
        ensures
            final(self).wf(),
            final(self)@ == old(self)@.allocate(tag, Heap::blank(size as nat)),
            final(self)@.retains(old(self)@, old(self)@.depth()),
            block == final(self)@.newest(),
            block.0 == address(old(self)@.cells.len() as int),
            final(self)@.is_block(block),
    {
        let ghost before = self@;
        let marks = self.mark();
        self.sweep(&marks);
        let ghost swept = self@;
        let mut fields: Vec<Value> = Vec::new();
        let mut i: usize = 0;
        while i < size
            invariant
                i <= size,
                fields@.len() == i,
                forall|g: int| 0 <= g < i ==> fields@[g] == Value(1),
            decreases size - i,
        {
            fields.push(val_int(0));
            i = i + 1;
        }
        let top = self.cells.len();
        self.cells.push(Some(Block { tag, fields }));
        proof {
            assert(fields@ =~= Heap::blank(size as nat));
            assert(self@.cells =~= before.allocate(tag, Heap::blank(size as nat)).cells);
            assert(self@.roots =~= before.roots);
            lemma_allocate(before, tag, Heap::blank(size as nat));
        }
        let at: usize = (top + 1) * 8;
        Value(at as isize)
    }

    /// Stores `v` into field `index` of the block that `block` points to.
    ///
    /// The value has to be valid and, if it is a pointer, to refer to a block
    /// older than the one it is stored into: blocks are filled when they are
    /// made and not changed afterwards.
    pub fn caml_modify(&mut self, block: Value, index: usize, v: Value)
        requires
            old(self).wf(),
            old(self)@.is_block(block),
            index < old(self)@.object(block).fields.len(),
            old(self)@.older(v, index_of(block)),
        ensures
            final(self).wf(),
            final(self)@ == old(self)@.store(index_of(block), index as int, v),
    {
        let ghost before = self@;
        let at = block_index(block);
        match &mut self.cells[at] {
            Some(b) => {
                b.fields.set(index, v);
            },
            None => {},
        }
        proof {
            assert(self@.cells =~= before.store(at as int, index as int, v).cells);
            assert(self@.roots =~= before.roots);
            lemma_store(before, at as int, index as int, v);
        }
    }
}

impl Runtime {
    /// The number of blocks allocated so far, the reclaimed ones included.
    pub fn allocated(&self) -> (n: usize)
        ensures
            n == self@.cells.len(),
    {
        self.cells.len()
    }

    /// Tells whether `n` more blocks can be allocated.
    pub fn has_room(&self, n: usize) -> (b: bool)
        requires
            self.wf(),
        ensures
            b == (self@.cells.len() + n <= capacity()),
    {
        let limit: usize = (isize::MAX / 8) as usize;
        n <= limit - self.cells.len()
    }

    /// Tells whether `v` can be used now: whether it is an immediate or the
    /// pointer to a block that is there.
    pub fn is_valid(&self, v: Value) -> (b: bool)
        ensures
            b == self@.valid(v),
    {
        if !v.is_block() {
            return true;
        }
        let raw: isize = v.0;
        if raw <= 0 || raw % 8 != 0 {
            return false;
        }
        let at = block_index(v);
        if at >= self.cells.len() {
            return false;
        }
        match &self.cells[at] {
            Some(_) => true,
            None => false,
        }
    }

    /// Tells whether the root chain protects `v`: whether it is an immediate
    /// or a block that the collector finds from the chain.
    pub fn is_protected(&self, v: Value) -> (b: bool)
        requires
            self.wf(),
        ensures
            b == self@.protected(v),
    {
        if !v.is_block() {
            return true;
        }
        let raw: isize = v.0;
        if raw <= 0 || raw % 8 != 0 {
            return false;
        }
        let at = block_index(v);
        if at >= self.cells.len() {
            return false;
        }
        let marks = self.mark();
        marks[at]
    }

    /// The tag of the block that `block` points to.
    pub fn tag_of(&self, block: Value) -> (tag: u8)
        requires
            self@.is_block(block),
        ensures
            tag == self@.object(block).tag,
    {
        let at = block_index(block);
        match &self.cells[at] {
            Some(b) => b.tag,
            None => 0,
        }
    }

    /// The fields of the block that `block` points to, in place.
    pub fn fields_of(&self, block: Value) -> (fields: &[Value])
        requires
            self@.is_block(block),
        ensures
            fields@ == self@.object(block).fields,
    {
        let at = block_index(block);
        match &self.cells[at] {
            Some(b) => b.fields.as_slice(),
            None => &[],
        }
    }
}

} // verus!
