//! The plan behind the generated bindings of a user-defined variant type.
//!
//! A generator of bindings reads the declaration of a variant type and emits
//! one constructor for each variant. What it emits is decided here: which
//! declarations are turned down, and which tag each constructor gets.
use vstd::prelude::*;

verus! {

/// The fields of a variant as it is declared.
pub enum Fields {
    /// Fields with names, as in a struct.
    Named,
    /// That many fields without names.
    Unnamed(usize),
    /// No fields at all.
    Unit,
}

/// What the generator reads of one variant.
pub struct Variant {
    /// The variant is declared with a discriminant of its own.
    pub discriminant: bool,
    pub fields: Fields,
}

/// What the generator reads of a declaration.
pub enum Data {
    Struct,
    Enum(Vec<Variant>),
}

/// The constructor planned for one variant.
#[derive(Clone, Copy, Debug, PartialEq, Eq, Structural)]
pub enum Ctor {
    /// The variant is a block with this tag and that many fields.
    Block { tag: usize, arity: usize },
    /// The variant is the unboxed integer `tag`.
    Inline { tag: usize },
}

/// Why a declaration is turned down, with the number of the offending
/// variant where there is one.
#[derive(Clone, Copy, Debug, PartialEq, Eq, Structural)]
pub enum Unsupported {
    /// The variant has a discriminant.
    Discriminant(usize),
    /// The variant has named fields.
    StructLike(usize),
    /// The declaration is a struct.
    Record,
}

impl Unsupported {
    /// The diagnostic for a declaration that is turned down.
    pub open spec fn diagnostic(self) -> Seq<char> {
        match self {
            Unsupported::Discriminant(_) => "caml_type! does not support variants with discriminants"@,
            Unsupported::StructLike(_) => "caml_type! does not support struct-like variants"@,
            Unsupported::Record => "caml_type! does not support structs"@,
        }
    }

    /// The diagnostic for a declaration that is turned down. The generator
    /// attaches it to the construct that the error names.
    pub fn message(&self) -> (s: &'static str)
        ensures
            s@ == self.diagnostic(),
    {
        match self {
            Unsupported::Discriminant(_) => "caml_type! does not support variants with discriminants",
            Unsupported::StructLike(_) => "caml_type! does not support struct-like variants",
            Unsupported::Record => "caml_type! does not support structs",
        }
    }
}

/// The generator can bind the variant.
pub open spec fn supported(v: Variant) -> bool {
    !v.discriminant && !(v.fields is Named)
}

/// The variant becomes a block.
pub open spec fn boxed(v: Variant) -> bool {
    v.fields is Unnamed
}

/// The number of variants before number `i` that become blocks.
pub open spec fn boxed_before(vs: Seq<Variant>, i: int) -> nat
    decreases i,
{
    if i <= 0 {
        0
    } else {
        boxed_before(vs, i - 1) + if boxed(vs[i - 1]) {
            1nat
        } else {
            0nat
        }
    }
}

/// The constructor of variant number `i`: blocks and unboxed integers are
/// numbered apart, each kind from 0 in the order of the declaration.
pub open spec fn ctor_of(vs: Seq<Variant>, i: int) -> Ctor {
    match vs[i].fields {
        Fields::Unnamed(arity) => Ctor::Block { tag: boxed_before(vs, i) as usize, arity },
        _ => Ctor::Inline { tag: (i - boxed_before(vs, i)) as usize },
    }
}

/// Why variant number `i` is turned down: a discriminant is found before the
/// fields are looked at.
pub open spec fn rejection(v: Variant, i: usize) -> Unsupported {
    if v.discriminant {
        Unsupported::Discriminant(i)
    } else {
        Unsupported::StructLike(i)
    }
}

/// Plans the constructors of a variant type.
///
/// The plan has one constructor for each variant, in order. The declaration
/// is turned down at its first variant that has a discriminant or named
/// fields.
pub fn impl_enum(variants: &Vec<Variant>) -> (r: Result<Vec<Ctor>, Unsupported>)
    ensures
        match r {
            Ok(ctors) => {
                &&& forall|i: int| 0 <= i < variants@.len() ==> supported(#[trigger] variants@[i])
                &&& ctors@.len() == variants@.len()
                &&& forall|i: int|
                    0 <= i < variants@.len() ==> #[trigger] ctors@[i] == ctor_of(variants@, i)
            },
            Err(e) => exists|i: int|
                {
                    &&& 0 <= i < variants@.len()
                    &&& !supported(#[trigger] variants@[i])
                    &&& forall|j: int| 0 <= j < i ==> supported(#[trigger] variants@[j])
                    &&& e == rejection(variants@[i], i as usize)
                },
        },
{
    let mut tag_boxed: usize = 0;
    let mut tag_unboxed: usize = 0;
    let mut ctors: Vec<Ctor> = Vec::new();
    let mut i: usize = 0;
    while i < variants.len()
        invariant
            i <= variants@.len(),
            ctors@.len() == i,
            tag_boxed == boxed_before(variants@, i as int),
            tag_boxed + tag_unboxed == i,
            forall|j: int| 0 <= j < i ==> supported(#[trigger] variants@[j]),
            forall|j: int| 0 <= j < i ==> #[trigger] ctors@[j] == ctor_of(variants@, j),
        decreases variants@.len() - i,
    {
        let var = &variants[i];
        if var.discriminant {
            return Err(Unsupported::Discriminant(i));
        }
        match var.fields {
            Fields::Named => {
                return Err(Unsupported::StructLike(i));
            },
            Fields::Unnamed(arity) => {
                ctors.push(Ctor::Block { tag: tag_boxed, arity });
                tag_boxed = tag_boxed + 1;
            },
            Fields::Unit => {
                ctors.push(Ctor::Inline { tag: tag_unboxed });
                tag_unboxed = tag_unboxed + 1;
            },
        }
        i = i + 1;
    }
    Ok(ctors)
}

/// Plans the bindings of a declaration. Only variant types are bound.
pub fn caml_type(data: &Data) -> (r: Result<Vec<Ctor>, Unsupported>)
    ensures
        match *data {
            Data::Struct => r == Err::<Vec<Ctor>, Unsupported>(Unsupported::Record),
            Data::Enum(variants) => match r {
                Ok(ctors) => {
                    &&& forall|i: int|
                        0 <= i < variants@.len() ==> supported(#[trigger] variants@[i])
                    &&& ctors@.len() == variants@.len()
                    &&& forall|i: int|
                        0 <= i < variants@.len() ==> #[trigger] ctors@[i] == ctor_of(variants@, i)
                },
                Err(e) => exists|i: int|
                    {
                        &&& 0 <= i < variants@.len()
                        &&& !supported(#[trigger] variants@[i])
                        &&& forall|j: int| 0 <= j < i ==> supported(#[trigger] variants@[j])
                        &&& e == rejection(variants@[i], i as usize)
                    },
            },
        },
{
    match data {
        Data::Struct => Err(Unsupported::Record),
        Data::Enum(variants) => impl_enum(variants),
    }
}

} // verus!
