//! Rooted handles, the allocation context and the trait of builders.
use vstd::prelude::*;
use std::marker::PhantomData;
use crate::heap::laws::{lemma_reach_more_roots, lemma_retained, lemma_set_root};
use crate::heap::{capacity, index_of, Heap, Object, Shape};
use crate::raw::{allocate, val_int, Value};
use crate::runtime::Runtime;

verus! {

/// A value of the runtime read as a value of the type `T`.
///
/// It is the word itself and is good for as long as the word is: until the
/// next allocation, unless the root chain protects it.
pub struct Ref<T> {
    pub raw: Value,
    pub marker: PhantomData<T>,
}

impl<T> Clone for Ref<T> {
    fn clone(&self) -> (r: Self)
        ensures
            r == *self,
    {
        Ref { raw: self.raw, marker: PhantomData }
    }
}

impl<T> Copy for Ref<T> {

}

impl<T> Ref<T> {
    /// Reads the word `raw` as a value of the type `T`. Nothing is checked:
    /// what `raw` is has to be known by the caller.
    pub fn from_raw(raw: Value) -> (r: Self)
        ensures
            r.raw == raw,
    {
        Ref { raw, marker: PhantomData }
    }

    /// The word behind the reference.
    pub fn value(&self) -> (v: Value)
        ensures
            v == self.raw,
    {
        self.raw
    }
}

/// The trait of types that can build into a value of the runtime.
///
/// A builder describes a value that has not been made yet. [`Build::build`]
/// makes it, allocating the blocks it needs and keeping every part rooted
/// until the whole is allocated.
pub trait Build: Sized {
    /// The type of the value that is built.
    type Result;

    /// What the value will stand for, when it is built in `heap`.
    spec fn describes(&self, heap: Heap) -> Shape;

    /// What the builder needs of the heap it is built in: every value of the
    /// runtime that it refers to is protected by the root chain.
    spec fn buildable(&self, heap: Heap) -> bool;

    /// The number of blocks that building allocates.
    spec fn blocks(&self) -> nat;

    /// A builder that can be built stays so, and describes the same, for as
    /// long as the heap retains what the root chain protected.
    proof fn lemma_stable(&self, old: Heap, new: Heap)
        requires
            old.wf(),
            new.retains(old, old.depth()),
            self.buildable(old),
        ensures
            self.buildable(new),
            self.describes(new) == self.describes(old),
    ;

    /// Creates the value represented by `self`, allocating the necessary
    /// blocks on the heap of the runtime.
    ///
    /// The value returned is not rooted: it has to be rooted, or dropped,
    /// before the context is used again.
    fn build(self, gc: &mut Gc) -> (r: Ref<Self::Result>)
        requires
            old(gc).wf(),
            self.buildable(old(gc)@),
            old(gc)@.cells.len() + self.blocks() <= capacity(),
        ensures
            final(gc).wf(),
            final(gc)@.valid(r.raw),
            final(gc)@.shape(r.raw) == self.describes(old(gc)@),
            final(gc)@.roots == old(gc)@.roots,
            final(gc)@.retains(old(gc)@, old(gc)@.depth()),
            final(gc)@.cells.len() == old(gc)@.cells.len() + self.blocks(),
    ;
}

/// The allocation context.
///
/// Every operation that may allocate takes the context by exclusive
/// reference, so that no two of them run at once and none runs while a value
/// that is not rooted is still in use.
pub struct Gc {
    rt: Runtime,
}

impl View for Gc {
    type V = Heap;

    closed spec fn view(&self) -> Heap {
        self.rt@
    }
}

impl Gc {
    /// The root chain of the runtime is linked.
    pub closed spec fn linked(&self) -> bool {
        self.rt.linked()
    }

    /// The heap is well-formed and the root chain is linked.
    pub open spec fn wf(&self) -> bool {
        self@.wf() && self.linked()
    }

    /// The context of a runtime that has allocated and registered nothing.
    /// There is to be one context in a process.
    pub fn new() -> (gc: Gc)
        ensures
            gc.wf(),
            gc@ == Heap::empty(),
    {
        Gc { rt: Runtime::new() }
    }

    /// The runtime behind the context, to read from.
    pub fn runtime(&self) -> (rt: &Runtime)
        ensures
            rt@ == self@,
            rt.wf() == self.wf(),
    {
        &self.rt
    }

    /// Allocates a block with the given tag and fields and reads the pointer
    /// to it as a value of the type `T`.
    ///
    /// Every pointer among the fields has to be protected by the root chain.
    pub fn raw_alloc<T>(&mut self, tag: u8, fields: &[Value]) -> (r: Ref<T>)
        requires
            old(self).wf(),
            old(self)@.cells.len() < capacity(),
            forall|i: int| 0 <= i < fields@.len() ==> old(self)@.protected(#[trigger] fields@[i]),
        ensures
            final(self).wf(),
            final(self)@ == old(self)@.allocate(tag, fields@),
            final(self)@.retains(old(self)@, old(self)@.depth()),
            r.raw == final(self)@.newest(),
            final(self)@.is_block(r.raw),
            final(self)@.object(r.raw) == (Object { tag, fields: fields@ }),
            final(self)@.shape(r.raw) == Shape::Block(
                tag,
                Seq::new(fields@.len(), |f: int| old(self)@.shape(fields@[f])),
            ),
    {
        let block = allocate(&mut self.rt, tag, fields);
        Ref::from_raw(block)
    }
}

/// A root frame: the record that the collector walks to find live values.
///
/// A frame of this library always has one table with one item, the slot
/// `tables[0]`. `next` is the address of the frame that was the chain head
/// when this one was registered, 0 for none.
pub struct CamlRootsBlock {
    pub next: usize,
    pub ntables: usize,
    pub nitems: usize,
    pub tables: [Value; 1],
}

/// A garbage-collected pointer: a handle that owns one root frame.
///
/// A handle is made unregistered, holding a value that the collector can
/// read. Registering it makes its frame the chain head; from then on the
/// frame stays at its address, and the value in its slot is protected, until
/// the handle is unregistered. Handles are unregistered in the reverse order
/// of their registration.
pub struct P<T> {
    val: Value,
    root: usize,
    marker: PhantomData<T>,
}

impl<T> P<T> {
    /// The handle has been registered.
    pub closed spec fn registered(&self) -> bool {
        self.root != 0
    }

    /// The address of the handle's root frame, 0 while it has none.
    pub closed spec fn address(&self) -> int {
        self.root as int
    }

    /// The value that the handle was made with.
    pub closed spec fn held(&self) -> Value {
        self.val
    }

    /// The handle has a frame in the root chain of `heap`.
    pub open spec fn rooted_in(&self, heap: Heap) -> bool {
        self.registered() && 1 <= self.address() <= heap.depth()
    }

    /// Creates a new pointer that is not initialized and not registered. It
    /// holds the immediate 0, which the collector can read should a
    /// collection run after the pointer is registered and before it is
    /// initialized.
    pub fn new() -> (p: P<T>)
        ensures
            !p.registered(),
            p.address() == 0,
            p.held() == Value(1),
    {
        P { val: val_int(0), root: 0, marker: PhantomData }
    }

    /// Creates a new pointer from a raw value. It has to be registered before
    /// the context can be used again.
    pub fn from(val: Value) -> (p: P<T>)
        ensures
            !p.registered(),
            p.address() == 0,
            p.held() == val,
    {
        P { val, root: 0, marker: PhantomData }
    }

    /// Registers this pointer to the collector: its frame becomes the chain
    /// head, with the value that the pointer holds in its slot.
    pub fn register(&mut self, gc: &mut Gc)
        requires
            !old(self).registered(),
            old(gc).wf(),
            old(gc)@.valid(old(self).held()),
        ensures
            final(self).registered(),
            final(self).held() == old(self).held(),
            final(self).address() == old(gc)@.depth() + 1,
            final(self).rooted_in(final(gc)@),
            final(gc).wf(),
            final(gc)@ == old(gc)@.push_root(old(self).held()),
            final(gc)@.retains(old(gc)@, old(gc)@.depth()),
    {
        let head = gc.rt.local_roots();
        let frame = CamlRootsBlock { next: head, ntables: 1, nitems: 1, tables: [self.val] };
        let at = gc.rt.push_frame(frame);
        self.root = at;
    }

    /// Initializes this pointer with a value that has just been built. The
    /// value is protected from then on, and the context is free for the next
    /// allocation.
    pub fn root(&self, gc: &mut Gc, val: Ref<T>)
        requires
            old(gc).wf(),
            self.rooted_in(old(gc)@),
            old(gc)@.valid(val.raw),
        ensures
            final(gc).wf(),
            final(gc)@ == old(gc)@.set_root(self.address(), val.raw),
            final(gc)@.retains(old(gc)@, self.address() - 1),
            final(gc)@.protects(self.address(), val.raw),
    {
        gc.rt.set_slot(self.root, val.raw);
        proof {
            lemma_set_root(old(gc)@, self.address(), val.raw);
        }
    }

    /// Extracts the raw value: the one in the slot of the handle's frame, or,
    /// while the handle is not registered, the one it was made with.
    pub fn value(&self, gc: &Gc) -> (v: Value)
        requires
            gc.wf(),
            self.registered() ==> self.rooted_in(gc@),
        ensures
            self.registered() ==> v == gc@.roots[self.address() - 1] && gc@.protects(
                self.address(),
                v,
            ) && gc@.protected(v),
            !self.registered() ==> v == self.held(),
    {
        if self.root == 0 {
            self.val
        } else {
            let v = gc.rt.slot(self.root);
            proof {
                if !v.is_immediate() {
                    lemma_reach_more_roots(
                        gc@.cells,
                        gc@.roots,
                        self.address(),
                        gc@.depth(),
                        index_of(v),
                    );
                }
            }
            v
        }
    }

    /// The value in the handle's slot, read as a value of the type `T`. It is
    /// protected for as long as the handle stays registered.
    pub fn as_ref(&self, gc: &Gc) -> (r: Ref<T>)
        requires
            gc.wf(),
            self.rooted_in(gc@),
        ensures
            r.raw == gc@.roots[self.address() - 1],
            gc@.protects(self.address(), r.raw),
            gc@.protected(r.raw),
    {
        Ref::from_raw(self.value(gc))
    }

    /// The handle is pinned: while the heap retains the frames up to its
    /// address, its frame is where it was registered and its slot holds what
    /// it held.
    pub proof fn lemma_pinned(&self, old: Heap, new: Heap, n: int)
        requires
            self.rooted_in(old),
            self.address() <= n,
            new.retains(old, n),
        ensures
            self.rooted_in(new),
            new.roots[self.address() - 1] == old.roots[self.address() - 1],
    {
    }

    /// Takes the handle's frame out of the root chain, which goes back to the
    /// frame registered before it. The handle has to be the chain head.
    pub fn unregister(self, gc: &mut Gc)
        requires
            old(gc).wf(),
            self.registered(),
            self.address() == old(gc)@.depth(),
        ensures
            final(gc).wf(),
            final(gc)@ == old(gc)@.pop_root(),
            final(gc)@.retains(old(gc)@, old(gc)@.depth() - 1),
            final(gc)@.depth() == self.address() - 1,
    {
        gc.rt.pop_frame(self.root);
    }
}

/// A value that is there already builds into itself.
impl<T> Build for Ref<T> {
    type Result = T;

    open spec fn describes(&self, heap: Heap) -> Shape {
        heap.shape(self.raw)
    }

    open spec fn buildable(&self, heap: Heap) -> bool {
        heap.protected(self.raw)
    }

    open spec fn blocks(&self) -> nat {
        0
    }

    proof fn lemma_stable(&self, old: Heap, new: Heap) {
        lemma_retained(old, new, old.depth(), self.raw);
        if !self.raw.is_immediate() {
            lemma_reach_more_roots(
                new.cells,
                new.roots,
                old.depth(),
                new.depth(),
                index_of(self.raw),
            );
        }
    }

    fn build(self, gc: &mut Gc) -> (r: Ref<T>) {
        proof {
            lemma_retained(gc@, gc@, gc@.depth(), self.raw);
        }
        self
    }
}

} // verus!
