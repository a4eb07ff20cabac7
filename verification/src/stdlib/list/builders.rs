//! The builders of lists.
use vstd::prelude::*;
use std::marker::PhantomData;
use crate::heap::laws::{lemma_retained, lemma_retains_chain};
use crate::heap::{Heap, Shape};
use crate::macros::local;
use crate::mem::{Build, Gc, Ref};
use crate::raw::val_int;
use crate::stdlib::list::List;

verus! {

/// The description of a list by its first element and its rest.
pub struct Cons<U, V> {
    pub hd: U,
    pub tl: V,
}

/// The description of the empty list.
pub struct Nil<T>(pub PhantomData<T>);

impl<U, V> Build for Cons<U, V> where U: Build, V: Build<Result = List<U::Result>> {
    type Result = List<U::Result>;

    open spec fn describes(&self, heap: Heap) -> Shape {
        Shape::Block(0, seq![self.hd.describes(heap), self.tl.describes(heap)])
    }

    open spec fn buildable(&self, heap: Heap) -> bool {
        self.hd.buildable(heap) && self.tl.buildable(heap)
    }

    open spec fn blocks(&self) -> nat {
        self.hd.blocks() + self.tl.blocks() + 1
    }

    proof fn lemma_stable(&self, old: Heap, new: Heap) {
        self.hd.lemma_stable(old, new);
        self.tl.lemma_stable(old, new);
    }

    fn build(self, gc: &mut Gc) -> (r: Ref<List<U::Result>>) {
        let ghost s0 = gc@;
        let ghost d = s0.depth();
        let ghost tail = self.tl;
        let hd = local(gc, self.hd);
        let ghost s1 = gc@;
        proof {
            tail.lemma_stable(s0, s1);
        }
        let tl = local(gc, self.tl);
        let ghost s2 = gc@;
        let first = hd.value(gc);
        let rest = tl.value(gc);
        let fields = [first, rest];
        proof {
            lemma_retains_chain(s0, s1, s2, d, d + 1, d);
            lemma_retained(s1, s2, d + 1, first);
            assert(s1.roots.last() == s2.roots.drop_last().last());
        }
        let r = gc.raw_alloc(0, fields.as_slice());
        let ghost s3 = gc@;
        tl.unregister(gc);
        let ghost s4 = gc@;
        hd.unregister(gc);
        proof {
            let s5 = gc@;
            lemma_retains_chain(s0, s2, s3, d, d + 2, d);
            lemma_retains_chain(s0, s3, s4, d, d + 1, d);
            lemma_retains_chain(s0, s4, s5, d, d, d);
            assert(s5.roots =~= s0.roots);
            assert(s2.shape(first) == self.hd.describes(s0));
            assert(s2.shape(rest) == self.tl.describes(s0));
            assert(Seq::new(fields@.len(), |f: int| s2.shape(fields@[f])) =~= seq![
                self.hd.describes(s0),
                self.tl.describes(s0),
            ]);
        }
        r
    }
}

impl<T> Build for Nil<T> {
    type Result = List<T>;

    open spec fn describes(&self, heap: Heap) -> Shape {
        Shape::Imm(0)
    }

    open spec fn buildable(&self, heap: Heap) -> bool {
        true
    }

    open spec fn blocks(&self) -> nat {
        0
    }

    proof fn lemma_stable(&self, old: Heap, new: Heap) {
    }

    fn build(self, gc: &mut Gc) -> (r: Ref<List<T>>) {
        Ref::from_raw(val_int(0))
    }
}

} // verus!
