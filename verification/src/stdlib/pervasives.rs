//! The names that code working with values of the runtime wants at hand, and
//! the integers of the runtime.
use vstd::prelude::*;
use vstd::std_specs::convert::{FromSpec, FromSpecImpl};
use vstd::std_specs::ops::{AddSpec, AddSpecImpl, DivSpec, DivSpecImpl, MulSpec, MulSpecImpl, SubSpec, SubSpecImpl};
use crate::heap::{Heap, Shape};
use crate::mem::{Build, Gc, Ref};
use crate::raw::{fits_immediate, int_val, spec_int_val, spec_val_int, val_int, Value};

pub use crate::stdlib::list::{Cons, List, Nil};
pub use crate::stdlib::option::{None_, Option_, Some_};

verus! {

/// An integer of the runtime: an immediate value. It has one bit less than a
/// native integer.
#[derive(Clone, Copy, Debug)]
pub struct int_(Value);

impl int_ {
    #[verifier::type_invariant]
    spec fn immediate(self) -> bool {
        self.0.is_immediate()
    }

    /// The word that represents the integer.
    pub closed spec fn raw(self) -> Value {
        self.0
    }

    /// The integer as a number.
    pub open spec fn value(self) -> int {
        self.raw().as_int()
    }

    /// The integer that the reference refers to, which has to be an
    /// immediate.
    pub fn of(r: Ref<int_>) -> (i: int_)
        requires
            r.raw.is_immediate(),
        ensures
            i.raw() == r.raw,
    {
        int_(r.raw)
    }

    /// The integer written in decimal.
    pub fn to_string(&self) -> (s: String)
        ensures
            s@ == decimal_of(spec_int_val(self.raw().0)),
    {
        decimal(int_val(self.0.0))
    }

    /// The integer as a native one.
    pub fn to_isize(self) -> (i: isize)
        ensures
            i == self.value(),
    {
        int_val(self.0.0)
    }
}

/// The decimal numeral of a native integer, as the standard library writes
/// it.
pub uninterp spec fn decimal_of(i: isize) -> Seq<char>;

/// Writes `i` in decimal with the formatting of the standard library
/// (`Display` for `isize`). The contract only names the text: it is the same
/// for the same integer.
#[verifier::external_body]
fn decimal(i: isize) -> (s: String)
    ensures
        s@ == decimal_of(i),
{
    format!("{}", i)
}

impl From<isize> for int_ {
    fn from(i: isize) -> (r: int_) {
        int_(val_int(i))
    }
}

impl FromSpecImpl<isize> for int_ {
    open spec fn obeys_from_spec() -> bool {
        true
    }

    closed spec fn from_spec(i: isize) -> int_ {
        int_(Value(spec_val_int(i)))
    }
}

/// The integer made from a native one that fits has its value.
pub proof fn lemma_from(i: isize)
    requires
        fits_immediate(i as int),
    ensures
        <int_ as FromSpec<isize>>::from_spec(i).value() == i,
        <int_ as FromSpec<isize>>::from_spec(i).raw() == Value(spec_val_int(i)),
{
}

impl Build for int_ {
    type Result = int_;

    open spec fn describes(&self, heap: Heap) -> Shape {
        Shape::Imm(self.value())
    }

    open spec fn buildable(&self, heap: Heap) -> bool {
        true
    }

    open spec fn blocks(&self) -> nat {
        0
    }

    proof fn lemma_stable(&self, old: Heap, new: Heap) {
    }

    fn build(self, gc: &mut Gc) -> (r: Ref<int_>)
        ensures
            r.raw == self.raw(),
    {
        proof {
            use_type_invariant(&self);
        }
        Ref::from_raw(self.0)
    }
}

impl std::ops::Add for int_ {
    type Output = int_;

    fn add(self, rhs: int_) -> (r: int_) {
        int_(val_int(int_val(self.0.0) + int_val(rhs.0.0)))
    }
}

impl AddSpecImpl for int_ {
    open spec fn obeys_add_spec() -> bool {
        true
    }

    open spec fn add_req(self, rhs: int_) -> bool {
        true
    }

    closed spec fn add_spec(self, rhs: int_) -> int_ {
        int_(Value(spec_val_int((spec_int_val(self.0.0) + spec_int_val(rhs.0.0)) as isize)))
    }
}

impl std::ops::Sub for int_ {
    type Output = int_;

    fn sub(self, rhs: int_) -> (r: int_) {
        int_(val_int(int_val(self.0.0) - int_val(rhs.0.0)))
    }
}

impl SubSpecImpl for int_ {
    open spec fn obeys_sub_spec() -> bool {
        true
    }

    open spec fn sub_req(self, rhs: int_) -> bool {
        true
    }

    closed spec fn sub_spec(self, rhs: int_) -> int_ {
        int_(Value(spec_val_int((spec_int_val(self.0.0) - spec_int_val(rhs.0.0)) as isize)))
    }
}

impl std::ops::Mul for int_ {
    type Output = int_;

    fn mul(self, rhs: int_) -> (r: int_) {
        int_(val_int(int_val(self.0.0) * int_val(rhs.0.0)))
    }
}

impl MulSpecImpl for int_ {
    open spec fn obeys_mul_spec() -> bool {
        true
    }

    open spec fn mul_req(self, rhs: int_) -> bool {
        isize::MIN <= self.value() * rhs.value() <= isize::MAX
    }

    closed spec fn mul_spec(self, rhs: int_) -> int_ {
        int_(Value(spec_val_int((spec_int_val(self.0.0) * spec_int_val(rhs.0.0)) as isize)))
    }
}

impl std::ops::Div for int_ {
    type Output = int_;

    fn div(self, rhs: int_) -> (r: int_) {
        int_(val_int(int_val(self.0.0) / int_val(rhs.0.0)))
    }
}

impl DivSpecImpl for int_ {
    open spec fn obeys_div_spec() -> bool {
        true
    }

    open spec fn div_req(self, rhs: int_) -> bool {
        rhs.value() != 0
    }

    closed spec fn div_spec(self, rhs: int_) -> int_ {
        int_(Value(spec_val_int(truncated_quotient(spec_int_val(self.0.0), spec_int_val(rhs.0.0)))))
    }
}

/// The quotient of two native integers, rounded towards zero.
pub open spec fn truncated_quotient(a: isize, b: isize) -> isize {
    if a >= 0 {
        (a / b) as isize
    } else {
        (-((-a) / (b as int))) as isize
    }
}

/// The four operations compute on the numbers, as long as the result is one
/// that an integer of the runtime can carry. Division rounds towards zero.
pub proof fn lemma_arithmetic(a: int_, b: int_)
    ensures
        fits_immediate(a.value() + b.value()) ==> AddSpec::add_spec(a, b).value() == a.value() + b.value(),
        fits_immediate(a.value() - b.value()) ==> SubSpec::sub_spec(a, b).value() == a.value() - b.value(),
        fits_immediate(a.value() * b.value()) ==> MulSpec::mul_spec(a, b).value() == a.value() * b.value(),
        b.value() != 0 && fits_immediate(
            truncated_quotient(spec_int_val(a.raw().0), spec_int_val(b.raw().0)) as int,
        ) ==> DivSpec::div_spec(a, b).value() == truncated_quotient(
            spec_int_val(a.raw().0),
            spec_int_val(b.raw().0),
        ),
{
}

} // verus!
