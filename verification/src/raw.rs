//! Raw representation of values of the managed runtime.
//!
//! A value is one machine word: either a tagged, unboxed integer, or an
//! aligned pointer into the managed heap. Nothing here looks at the heap; the
//! caller has to know which of the two a word is.
use vstd::prelude::*;
use crate::heap::laws::{lemma_allocate, lemma_reach_live, lemma_retained};
use crate::heap::{capacity, index_of, Heap, Object, Shape};
use crate::runtime::Runtime;

verus! {

/// The underlying representation of every value of the runtime, immediate or
/// boxed.
///
/// A word whose lowest bit is 1 is an immediate: the remaining bits are a
/// signed integer. A word whose lowest bit is 0 is a pointer to the first
/// field of a heap block.
#[derive(Clone, Copy, Debug, PartialEq, Eq, Structural)]
pub struct Value(pub isize);

impl Value {
    /// The lowest bit is set: the word is an integer and is never dereferenced.
    pub open spec fn is_immediate(self) -> bool {
        self.0 % 2 == 1
    }

    /// The lowest bit is clear: the word is an address.
    pub open spec fn is_pointer(self) -> bool {
        self.0 % 2 == 0
    }

    /// The integer that an immediate word carries.
    pub open spec fn as_int(self) -> int {
        spec_int_val(self.0) as int
    }

    /// Tells a pointer from an immediate by the lowest bit.
    pub fn is_block(&self) -> (b: bool)
        ensures
            b == self.is_pointer(),
            b == !self.is_immediate(),
    {
        let raw: isize = self.0;
        assert((raw & 1 == 0) == (raw % 2 == 0)) by (bit_vector);
        raw & 1 == 0
    }
}

/// The integers that an immediate can carry: those of one bit less than the
/// machine word.
pub open spec fn fits_immediate(i: int) -> bool {
    isize::MIN <= 2 * i + 1 <= isize::MAX
}

/// The word that encodes `i`: `2 * i + 1`, cut to the width of the machine
/// word. Within [`fits_immediate`] nothing is cut off.
pub open spec fn spec_val_int(i: isize) -> isize {
    (2 * i + 1) as isize
}

/// The integer that the word `v` encodes, by an arithmetic shift.
pub open spec fn spec_int_val(v: isize) -> isize {
    (v / 2) as isize
}

/// Converts a native integer to the value that represents it.
///
/// Integers of the runtime have one bit less than the machine word: an input
/// outside [`fits_immediate`] loses its highest bit.
pub fn val_int(i: isize) -> (v: Value)
    ensures
        v.0 == spec_val_int(i),
        v.is_immediate(),
        fits_immediate(i as int) ==> v.0 == 2 * i + 1,
        fits_immediate(i as int) ==> v.as_int() == i,
{
    let raw: isize = (i << 1) | 1;
    assert(((i << 1) | 1) == (2 * i + 1) as isize) by (bit_vector);
    assert(((i << 1) | 1) % 2 == 1) by (bit_vector);
    Value(raw)
}

/// Converts an encoded integer back to a native one. It takes the word
/// itself, not the wrapping [`Value`], and does not test the lowest bit.
pub fn int_val(v: isize) -> (i: isize)
    ensures
        i == spec_int_val(v),
        i == v / 2,
{
    let i: isize = v >> 1;
    assert(v >> 1 == v / 2) by (bit_vector);
    i
}

/// Decoding undoes encoding for every integer that an immediate can carry.
pub proof fn lemma_int_roundtrip(i: isize)
    requires
        fits_immediate(i as int),
    ensures
        spec_int_val(spec_val_int(i)) == i,
        Value(spec_val_int(i)).is_immediate(),
{
}

/// Raw allocation primitive.
///
/// `allocate(rt, tag, values)` makes a fresh block with the given `tag` on the
/// heap of the runtime and returns the pointer to it. The fields of the block
/// are the `values`, each written through the runtime's own store operation;
/// the size of the block is their number.
///
/// The request may run a collection, which takes away every block that the
/// root chain does not protect. So every pointer among the `values` has to be
/// protected by the root chain before the call, and of the pointers that the
/// caller holds only the protected ones, and the one returned, are good
/// afterwards.
pub fn allocate(rt: &mut Runtime, tag: u8, values: &[Value]) -> (block: Value)
    requires
        old(rt).wf(),
        old(rt)@.cells.len() < capacity(),
        forall|i: int| 0 <= i < values@.len() ==> old(rt)@.protected(#[trigger] values@[i]),
    ensures
        final(rt).wf(),
        final(rt)@ == old(rt)@.allocate(tag, values@),
        final(rt)@.retains(old(rt)@, old(rt)@.depth()),
        block == final(rt)@.newest(),
        final(rt)@.is_block(block),
        final(rt)@.object(block) == (Object { tag, fields: values@ }),
        final(rt)@.shape(block) == Shape::Block(
            tag,
            Seq::new(values@.len(), |f: int| old(rt)@.shape(values@[f])),
        ),
{
    let ghost before = rt@;
    let ghost top = before.cells.len() as int;
    let size = values.len();
    let block = rt.caml_alloc(size, tag);
    let ghost fresh = rt@;
    proof {
        assert forall|i: int| 0 <= i < size implies fresh.older(#[trigger] values@[i], top) by {
            lemma_retained(before, fresh, before.depth(), values@[i]);
            if !values@[i].is_immediate() {
                lemma_reach_live(before, before.depth(), index_of(values@[i]));
            }
        }
    }
    let mut i: usize = 0;
    while i < size
        invariant
            rt.wf(),
            size == values@.len(),
            i <= size,
            top == before.cells.len(),
            index_of(block) == top,
            fresh == before.allocate(tag, Heap::blank(size as nat)),
            rt@.roots == before.roots,
            rt@.cells.len() == top + 1,
            rt@.is_block(block),
            forall|k: int| 0 <= k < top ==> #[trigger] rt@.cells[k] == fresh.cells[k],
            rt@.cells[top].unwrap().tag == tag,
            rt@.cells[top].unwrap().fields.len() == size,
            forall|g: int| 0 <= g < i ==> #[trigger] rt@.cells[top].unwrap().fields[g] == values@[g],
            forall|g: int| 0 <= g < size ==> fresh.older(#[trigger] values@[g], top),
        decreases size - i,
    {
        let v = values[i];
        assert(fresh.older(values@[i as int], top));
        rt.caml_modify(block, i, v);
        i = i + 1;
    }
    proof {
        let end = rt@;
        assert(end.cells[top] == Some(Object { tag, fields: values@ })) by {
            assert(end.cells[top].unwrap().fields =~= values@);
        }
        assert(end.cells =~= before.allocate(tag, values@).cells);
        lemma_allocate(before, tag, values@);
    }
    block
}

} // verus!
