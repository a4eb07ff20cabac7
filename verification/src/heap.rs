//! The managed heap and the chain of local roots, as mathematics.
//!
//! The collector knows the blocks by their addresses and finds the live ones
//! by walking the root chain. This module says what that means; what follows
//! from it is proved in [`laws`].
use vstd::prelude::*;
use crate::raw::Value;

pub mod laws;

verus! {

/// A heap block: a one-byte tag and its fields.
pub struct Object {
    pub tag: u8,
    pub fields: Seq<Value>,
}

/// What a value stands for once every pointer in it has been followed.
pub enum Shape {
    /// An immediate integer.
    Imm(int),
    /// A block with its tag and what its fields stand for.
    Block(u8, Seq<Shape>),
}

/// The state that native code and the collector share: the blocks, by the
/// order in which they were allocated, and the slots of the registered root
/// frames, the oldest first.
pub struct Heap {
    /// `None` where the collector has reclaimed the block.
    pub cells: Seq<Option<Object>>,
    /// The value in the slot of each registered root frame. The chain head is
    /// the last one.
    pub roots: Seq<Value>,
}

/// The address of the first field of the block allocated as number `k`.
pub open spec fn address(k: int) -> int {
    8 * (k + 1)
}

/// The number of the block that a pointer refers to.
pub open spec fn index_of(v: Value) -> int {
    v.0 / 8 - 1
}

/// The number of blocks that can be told apart by their address.
pub open spec fn capacity() -> int {
    isize::MAX / 8
}

/// `v` is the pointer to block `k`.
pub open spec fn points(v: Value, k: int) -> bool {
    v.0 == address(k)
}

/// One of the `n` oldest root slots holds the pointer to block `k`.
pub open spec fn rooted(roots: Seq<Value>, n: int, k: int) -> bool {
    exists|i: int| 0 <= i < n && i < roots.len() && points(#[trigger] roots[i], k)
}

/// Block `j` is there and one of its fields is the pointer to block `k`.
pub open spec fn refers(cells: Seq<Option<Object>>, j: int, k: int) -> bool {
    &&& 0 <= j < cells.len()
    &&& cells[j] is Some
    &&& exists|f: int| 0 <= f < cells[j].unwrap().fields.len() && points(#[trigger] cells[j].unwrap().fields[f], k)
}

/// The collector finds block `k` when it starts from the `n` oldest root
/// slots: a slot points to it, or a younger block that it finds does.
pub open spec fn reach(cells: Seq<Option<Object>>, roots: Seq<Value>, n: int, k: int) -> bool
    decreases cells.len() - k,
{
    &&& 0 <= k < cells.len()
    &&& (rooted(roots, n, k) || exists|j: int|
        k < j < cells.len() && reach(cells, roots, n, j) && #[trigger] refers(cells, j, k))
}

impl Heap {
    /// The number of registered root frames, which is also the address of the
    /// chain head (0 for the empty chain).
    pub open spec fn depth(self) -> int {
        self.roots.len() as int
    }

    /// Block `k` has been allocated and not reclaimed.
    pub open spec fn live(self, k: int) -> bool {
        0 <= k < self.cells.len() && self.cells[k] is Some
    }

    /// `v` is the pointer to a block that is there.
    pub open spec fn is_block(self, v: Value) -> bool {
        points(v, index_of(v)) && self.live(index_of(v))
    }

    /// `v` can be used now: it is an immediate, or the block it points to is
    /// there.
    pub open spec fn valid(self, v: Value) -> bool {
        v.is_immediate() || self.is_block(v)
    }

    /// `v` is valid and, if a pointer, refers to a block older than block `j`.
    pub open spec fn older(self, v: Value, j: int) -> bool {
        v.is_immediate() || (self.is_block(v) && index_of(v) < j)
    }

    /// The collector will not take `v` away while the `n` oldest root frames
    /// stay: it is an immediate, or a block that the collector finds from them.
    pub open spec fn protects(self, n: int, v: Value) -> bool {
        v.is_immediate() || (points(v, index_of(v)) && reach(self.cells, self.roots, n, index_of(v)))
    }

    /// As [`Heap::protects`], by all the root frames.
    pub open spec fn protected(self, v: Value) -> bool {
        self.protects(self.depth(), v)
    }

    /// Every root slot holds a valid value, every field of every block holds a
    /// valid value that is older than the block, and every block has an
    /// address.
    pub open spec fn wf(self) -> bool {
        &&& self.cells.len() <= capacity()
        &&& forall|i: int| 0 <= i < self.roots.len() ==> self.valid(#[trigger] self.roots[i])
        &&& forall|j: int, f: int|
            self.live(j) && 0 <= f < self.cells[j].unwrap().fields.len() ==> self.older(
                #[trigger] self.cells[j].unwrap().fields[f],
                j,
            )
    }
}

impl Heap {
    /// The heap before anything has been allocated or registered.
    pub open spec fn empty() -> Heap {
        Heap { cells: Seq::empty(), roots: Seq::empty() }
    }

    /// A frame whose slot holds `v` becomes the chain head.
    pub open spec fn push_root(self, v: Value) -> Heap {
        Heap { cells: self.cells, roots: self.roots.push(v) }
    }

    /// The slot of the frame at address `d` is overwritten with `v`.
    pub open spec fn set_root(self, d: int, v: Value) -> Heap {
        Heap { cells: self.cells, roots: self.roots.update(d - 1, v) }
    }

    /// The chain head goes back to the frame below it.
    pub open spec fn pop_root(self) -> Heap {
        Heap { cells: self.cells, roots: self.roots.drop_last() }
    }

    /// A collection: every block that the collector does not find from the
    /// root chain is reclaimed, every other block stays as and where it is.
    pub open spec fn collect(self) -> Heap {
        Heap {
            cells: Seq::new(
                self.cells.len(),
                |k: int|
                    if reach(self.cells, self.roots, self.depth(), k) {
                        self.cells[k]
                    } else {
                        None
                    },
            ),
            roots: self.roots,
        }
    }

    /// An allocation: a collection, and then a new block with the given tag
    /// and fields.
    pub open spec fn allocate(self, tag: u8, fields: Seq<Value>) -> Heap {
        Heap {
            cells: self.collect().cells.push(Some(Object { tag, fields })),
            roots: self.roots,
        }
    }

    /// The fields of a block that has just been requested: every one holds
    /// the immediate 0, which the collector can read.
    pub open spec fn blank(size: nat) -> Seq<Value> {
        Seq::new(size, |i: int| Value(1))
    }

    /// The block that the pointer `v` refers to.
    pub open spec fn object(self, v: Value) -> Object {
        self.cells[index_of(v)].unwrap()
    }

    /// Field `i` of block `k` is overwritten with `v`.
    pub open spec fn store(self, k: int, i: int, v: Value) -> Heap {
        Heap {
            cells: self.cells.update(
                k,
                Some(
                    Object {
                        tag: self.cells[k].unwrap().tag,
                        fields: self.cells[k].unwrap().fields.update(i, v),
                    },
                ),
            ),
            roots: self.roots,
        }
    }

    /// The pointer to the block allocated last.
    pub open spec fn newest(self) -> Value {
        Value(address(self.cells.len() - 1) as isize)
    }

    /// Since `old`, the `n` oldest root frames have kept their slots, and every
    /// block that the collector found from them in `old` is unchanged.
    pub open spec fn retains(self, old: Heap, n: int) -> bool {
        &&& 0 <= n <= old.depth()
        &&& n <= self.depth()
        &&& old.cells.len() <= self.cells.len()
        &&& forall|i: int| 0 <= i < n ==> #[trigger] self.roots[i] == old.roots[i]
        &&& forall|k: int| #[trigger]
            reach(old.cells, old.roots, n, k) ==> self.cells[k] == old.cells[k]
    }
}

/// `v` is the pointer to a block that is there.
pub open spec fn is_block_in(cells: Seq<Option<Object>>, v: Value) -> bool {
    points(v, index_of(v)) && 0 <= index_of(v) < cells.len() && cells[index_of(v)] is Some
}

/// What `v` stands for among `cells`: the integer of an immediate, or the tag
/// of the block it points to with what its fields stand for. A pointer to
/// nothing is read as the integer that its word would encode.
pub open spec fn shape_in(cells: Seq<Option<Object>>, v: Value) -> Shape
    decreases
            (if is_block_in(cells, v) {
                index_of(v) + 1
            } else {
                0
            }),
            0int,
{
    if is_block_in(cells, v) {
        let o = cells[index_of(v)].unwrap();
        Shape::Block(o.tag, shapes_in(cells, o.fields, index_of(v)))
    } else {
        Shape::Imm(v.as_int())
    }
}

/// What each of `fields` stands for, where they are the fields of a block of
/// number `bound`.
pub open spec fn shapes_in(cells: Seq<Option<Object>>, fields: Seq<Value>, bound: int) -> Seq<Shape>
    decreases bound, fields.len(),
{
    if fields.len() == 0 || bound < 0 {
        Seq::empty()
    } else {
        let v = fields.last();
        let s = if is_block_in(cells, v) && index_of(v) >= bound {
            Shape::Imm(v.as_int())
        } else {
            shape_in(cells, v)
        };
        shapes_in(cells, fields.drop_last(), bound).push(s)
    }
}

impl Heap {
    /// What `v` stands for once every pointer in it has been followed.
    pub open spec fn shape(self, v: Value) -> Shape {
        shape_in(self.cells, v)
    }

    /// What each of `fields` stands for, where they are the fields of a block
    /// of number `bound`.
    pub open spec fn shapes(self, fields: Seq<Value>, bound: int) -> Seq<Shape> {
        shapes_in(self.cells, fields, bound)
    }
}

/// Registers one root frame for each of `slots`, in order.
pub open spec fn push_roots(h: Heap, slots: Seq<Value>) -> Heap
    decreases slots.len(),
{
    if slots.len() == 0 {
        h
    } else {
        push_roots(h, slots.drop_last()).push_root(slots.last())
    }
}

/// Removes the chain head `k` times.
pub open spec fn pop_roots(h: Heap, k: nat) -> Heap
    decreases k,
{
    if k == 0 {
        h
    } else {
        pop_roots(h.pop_root(), (k - 1) as nat)
    }
}

} // verus!
