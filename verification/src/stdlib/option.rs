//! Binding to the option type of the runtime.
use vstd::prelude::*;
use std::marker::PhantomData;
use crate::matching::Match;
use crate::mem::Ref;
use crate::raw::Value;

pub mod builders;
pub mod tag;

verus! {

/// The type of optional values of the type `T`. The absent value is the
/// unboxed tag 0; a present value is a block of tag 0 with one field.
pub struct Option_<T>(pub PhantomData<T>);

/// Describes the present value `of`.
pub fn Some_<U>(of: U) -> (b: builders::Some_<U>)
    ensures
        b.inner == of,
{
    builders::Some_ { inner: of }
}

/// Describes the absent value.
pub fn None_<T>() -> (b: builders::None_<T>)
    ensures
        b == builders::None_::<T>(PhantomData),
{
    builders::None_(PhantomData)
}

impl<T> Match for Option_<T> {
    type InlineTag = tag::Inline;

    type BlockTag = tag::Block;

    type BlockValue = Ref<T>;

    open spec fn inline(i: int) -> bool {
        i == 0
    }

    open spec fn boxed(tag: u8) -> bool {
        tag == 0
    }

    open spec fn arity() -> nat {
        1
    }

    open spec fn layout(fields: Seq<Value>) -> Ref<T> {
        Ref { raw: fields[0], marker: PhantomData }
    }

    proof fn lemma_tags() {
    }

    fn fields(fields: &[Value]) -> (r: Ref<T>) {
        Ref::from_raw(fields[0])
    }
}

} // verus!
