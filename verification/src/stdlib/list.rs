//! Binding to the list type of the runtime.
use vstd::prelude::*;
use std::marker::PhantomData;
use crate::matching::Match;
use crate::mem::Ref;
use crate::raw::Value;

pub mod builders;
pub mod tag;

verus! {

/// The type of lists with elements of the type `T`. The empty list is the
/// unboxed tag 0; any other list is a block of tag 0 with two fields, the
/// first element and the rest.
pub struct List<T>(pub PhantomData<T>);

/// Describes the list that starts with `hd` and goes on with `tl`.
pub fn Cons<U, V>(hd: U, tl: V) -> (b: builders::Cons<U, V>)
    ensures
        b.hd == hd,
        b.tl == tl,
{
    builders::Cons { hd, tl }
}

/// Describes the empty list.
pub fn Nil<T>() -> (b: builders::Nil<T>)
    ensures
        b == builders::Nil::<T>(PhantomData),
{
    builders::Nil(PhantomData)
}

impl<T> Match for List<T> {
    type InlineTag = tag::Inline;

    type BlockTag = tag::Block;

    type BlockValue = (Ref<T>, Ref<List<T>>);

    open spec fn inline(i: int) -> bool {
        i == 0
    }

    open spec fn boxed(tag: u8) -> bool {
        tag == 0
    }

    open spec fn arity() -> nat {
        2
    }

    open spec fn layout(fields: Seq<Value>) -> (Ref<T>, Ref<List<T>>) {
        (Ref { raw: fields[0], marker: PhantomData }, Ref { raw: fields[1], marker: PhantomData })
    }

    proof fn lemma_tags() {
    }

    fn fields(fields: &[Value]) -> (r: (Ref<T>, Ref<List<T>>)) {
        (Ref::from_raw(fields[0]), Ref::from_raw(fields[1]))
    }
}

} // verus!
