//! The tags of the list type.
use vstd::prelude::*;
use vstd::std_specs::convert::FromSpecImpl;

verus! {

/// The tags of the unboxed lists.
#[derive(Clone, Copy, Debug, PartialEq, Eq, Structural)]
pub enum Inline {
    Nil,
}

impl From<isize> for Inline {
    fn from(x: isize) -> (tag: Inline) {
        Inline::Nil
    }
}

impl FromSpecImpl<isize> for Inline {
    open spec fn obeys_from_spec() -> bool {
        true
    }

    open spec fn from_spec(x: isize) -> Inline {
        Inline::Nil
    }
}

/// The tags of the list blocks.
#[derive(Clone, Copy, Debug, PartialEq, Eq, Structural)]
pub enum Block {
    Cons,
}

impl From<u8> for Block {
    fn from(x: u8) -> (tag: Block) {
        Block::Cons
    }
}

impl FromSpecImpl<u8> for Block {
    open spec fn obeys_from_spec() -> bool {
        true
    }

    open spec fn from_spec(x: u8) -> Block {
        Block::Cons
    }
}

} // verus!
