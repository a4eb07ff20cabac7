//! The tags of the option type.
use vstd::prelude::*;
use vstd::std_specs::convert::FromSpecImpl;

verus! {

/// The tags of the unboxed options.
#[derive(Clone, Copy, Debug, PartialEq, Eq, Structural)]
pub enum Inline {
    None_,
}

impl From<isize> for Inline {
    fn from(x: isize) -> (tag: Inline) {
        Inline::None_
    }
}

impl FromSpecImpl<isize> for Inline {
    open spec fn obeys_from_spec() -> bool {
        true
    }

    open spec fn from_spec(x: isize) -> Inline {
        Inline::None_
    }
}

/// The tags of the option blocks.
#[derive(Clone, Copy, Debug, PartialEq, Eq, Structural)]
pub enum Block {
    Some_,
}

impl From<u8> for Block {
    fn from(x: u8) -> (tag: Block) {
        Block::Some_
    }
}

impl FromSpecImpl<u8> for Block {
    open spec fn obeys_from_spec() -> bool {
        true
    }

    open spec fn from_spec(x: u8) -> Block {
        Block::Some_
    }
}

} // verus!
