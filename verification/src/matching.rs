//! Pattern-matching on values of the runtime.
//!
//! Matching converts a value into a [`Matcher`], which tells an unboxed tag
//! from a block with its tag and fields. The conversion is shallow and does
//! not copy: the fields of a block are handed out as they stand, and to look
//! into one of them takes another match.
use vstd::prelude::*;
use vstd::std_specs::convert::FromSpec;
use crate::heap::laws::lemma_shape;
use crate::heap::{Heap, Shape};
use crate::mem::{Build, Gc, Ref};
use crate::raw::{int_val, spec_int_val, Value};

verus! {

/// What a type declares to take part in matching: the tags of its unboxed
/// values, the tags of its blocks, and the layout of the fields of a block.
pub trait Match: Sized {
    /// The tags of the unboxed values.
    type InlineTag: From<isize>;

    /// The tags of the blocks.
    type BlockTag: From<u8>;

    /// The fields of a block, each read at its type.
    type BlockValue;

    /// The unboxed integers that are values of the type.
    spec fn inline(i: int) -> bool;

    /// The tags that blocks of the type have.
    spec fn boxed(tag: u8) -> bool;

    /// The number of fields that a block of the type has.
    spec fn arity() -> nat;

    /// The fields of a block, read by the layout of the type.
    spec fn layout(fields: Seq<Value>) -> Self::BlockValue;

    /// The conversions into the two tag types are functions of the number
    /// alone.
    proof fn lemma_tags()
        ensures
            Self::InlineTag::obeys_from_spec(),
            Self::BlockTag::obeys_from_spec(),
    ;

    /// Reads the fields of a block by the layout of the type.
    fn fields(fields: &[Value]) -> (r: Self::BlockValue)
        requires
            fields@.len() == Self::arity(),
        ensures
            r == Self::layout(fields@),
    ;
}

/// A type allowing inspection of a value of the runtime: an unboxed value
/// with its tag, or a block with its tag and fields.
pub enum Matcher<T: Match> {
    Inline(T::InlineTag),
    Block(T::BlockTag, T::BlockValue),
}

/// `v` is, one level deep, a value of the type `T`: an unboxed integer of the
/// type, or a block that is there, with a tag of the type and as many fields
/// as its layout says.
pub open spec fn matchable<T: Match>(heap: Heap, v: Value) -> bool {
    if v.is_immediate() {
        T::inline(v.as_int())
    } else {
        heap.is_block(v) && T::boxed(heap.object(v).tag) && heap.object(v).fields.len()
            == T::arity()
    }
}

/// What matching `v` at the type `T` gives among the blocks of `heap`.
pub open spec fn spec_match<T: Match>(heap: Heap, v: Value) -> Matcher<T> {
    if heap.is_block(v) {
        Matcher::Block(T::BlockTag::from_spec(heap.object(v).tag), T::layout(heap.object(v).fields))
    } else {
        Matcher::Inline(T::InlineTag::from_spec(spec_int_val(v.0)))
    }
}

/// Looks at `val` one level deep: tells by the lowest bit whether it is
/// unboxed or a block, and gives the tag and, for a block, the fields.
///
/// The value has to be one of the type `T`, as far as one level shows: to
/// read a value at a type that it does not have is not defined.
pub fn match_<T: Match>(gc: &Gc, val: Ref<T>) -> (m: Matcher<T>)
    requires
        matchable::<T>(gc@, val.raw),
    ensures
        m == spec_match::<T>(gc@, val.raw),
{
    proof {
        T::lemma_tags();
    }
    let word = val.value();
    if word.is_block() {
        let rt = gc.runtime();
        let tag = T::BlockTag::from(rt.tag_of(word));
        let data = T::fields(rt.fields_of(word));
        Matcher::Block(tag, data)
    } else {
        Matcher::Inline(T::InlineTag::from(int_val(word.0)))
    }
}

/// Building and then matching gives back what the builder described: the
/// integer of an unboxed value, or the tag of a block and fields that stand
/// for what the builder described for them.
pub proof fn lemma_build_then_match<B: Build>(b: B, before: Heap, after: Heap, r: Value) where
    B::Result: Match,

    requires
        after.wf(),
        after.valid(r),
        after.shape(r) == b.describes(before),
    ensures
        match b.describes(before) {
            Shape::Imm(i) => r.is_immediate() && i == r.as_int() && spec_match::<B::Result>(
                after,
                r,
            ) == Matcher::<B::Result>::Inline(
                <B::Result as Match>::InlineTag::from_spec(spec_int_val(r.0)),
            ),
            Shape::Block(tag, fields) => {
                &&& after.is_block(r)
                &&& spec_match::<B::Result>(after, r) == Matcher::<B::Result>::Block(
                    <B::Result as Match>::BlockTag::from_spec(tag),
                    <B::Result as Match>::layout(after.object(r).fields),
                )
                &&& after.object(r).fields.len() == fields.len()
                &&& forall|f: int|
                    0 <= f < fields.len() ==> after.shape(#[trigger] after.object(r).fields[f])
                        == fields[f]
            },
        },
{
    lemma_shape(after, r);
}

/// A valid value can be matched at the type `T` if what it stands for is,
/// one level deep, a value of that type.
pub proof fn lemma_matchable<T: Match>(heap: Heap, v: Value)
    requires
        heap.wf(),
        heap.valid(v),
        match heap.shape(v) {
            Shape::Imm(i) => T::inline(i),
            Shape::Block(tag, fields) => T::boxed(tag) && fields.len() == T::arity(),
        },
    ensures
        matchable::<T>(heap, v),
{
    lemma_shape(heap, v);
}

} // verus!
