//! The builders of optional values.
use vstd::prelude::*;
use std::marker::PhantomData;
use crate::heap::laws::lemma_retains_chain;
use crate::heap::{Heap, Shape};
use crate::macros::local;
use crate::mem::{Build, Gc, Ref};
use crate::raw::val_int;
use crate::stdlib::option::Option_;

verus! {

/// The description of a present value.
pub struct Some_<U> {
    pub inner: U,
}

/// The description of the absent value.
pub struct None_<T>(pub PhantomData<T>);

impl<U> Build for Some_<U> where U: Build {
    type Result = Option_<U::Result>;

    open spec fn describes(&self, heap: Heap) -> Shape {
        Shape::Block(0, seq![self.inner.describes(heap)])
    }

    open spec fn buildable(&self, heap: Heap) -> bool {
        self.inner.buildable(heap)
    }

    open spec fn blocks(&self) -> nat {
        self.inner.blocks() + 1
    }

    proof fn lemma_stable(&self, old: Heap, new: Heap) {
        self.inner.lemma_stable(old, new);
    }

    fn build(self, gc: &mut Gc) -> (r: Ref<Option_<U::Result>>) {
        let ghost s0 = gc@;
        let ghost d = s0.depth();
        let inner = local(gc, self.inner);
        let ghost s1 = gc@;
        let fields = [inner.value(gc)];
        let r = gc.raw_alloc(0, fields.as_slice());
        let ghost s2 = gc@;
        inner.unregister(gc);
        proof {
            let s3 = gc@;
            lemma_retains_chain(s0, s1, s2, d, d + 1, d);
            lemma_retains_chain(s0, s2, s3, d, d, d);
            assert(s3.roots =~= s0.roots);
            assert(Seq::new(fields@.len(), |f: int| s1.shape(fields@[f])) =~= seq![
                self.inner.describes(s0),
            ]);
        }
        r
    }
}

impl<T> Build for None_<T> {
    type Result = Option_<T>;

    open spec fn describes(&self, heap: Heap) -> Shape {
        Shape::Imm(0)
    }

    open spec fn buildable(&self, heap: Heap) -> bool {
        true
    }

    open spec fn blocks(&self) -> nat {
        0
    }

    proof fn lemma_stable(&self, old: Heap, new: Heap) {
    }

    fn build(self, gc: &mut Gc) -> (r: Ref<Option_<T>>) {
        Ref::from_raw(val_int(0))
    }
}

} // verus!
