use mechaml::derive::{caml_type, impl_enum, Ctor, Data, Fields, Unsupported, Variant};

fn unit() -> Variant {
    Variant { discriminant: false, fields: Fields::Unit }
}

fn tuple(n: usize) -> Variant {
    Variant { discriminant: false, fields: Fields::Unnamed(n) }
}

#[test]
fn tags_are_counted_apart_for_blocks_and_immediates() {
    let plan = impl_enum(&vec![unit(), tuple(2), unit(), tuple(1), tuple(3), unit()]);
    assert_eq!(
        plan,
        Ok(vec![
            Ctor::Inline { tag: 0 },
            Ctor::Block { tag: 0, arity: 2 },
            Ctor::Inline { tag: 1 },
            Ctor::Block { tag: 1, arity: 1 },
            Ctor::Block { tag: 2, arity: 3 },
            Ctor::Inline { tag: 2 },
        ])
    );
}

#[test]
fn the_plan_of_a_list_like_type() {
    assert_eq!(
        impl_enum(&vec![unit(), tuple(2)]),
        Ok(vec![Ctor::Inline { tag: 0 }, Ctor::Block { tag: 0, arity: 2 }])
    );
}

#[test]
fn the_plan_of_no_variants_is_empty() {
    assert_eq!(impl_enum(&vec![]), Ok(vec![]));
}

#[test]
fn a_tuple_variant_without_fields_is_a_block() {
    assert_eq!(impl_enum(&vec![tuple(0)]), Ok(vec![Ctor::Block { tag: 0, arity: 0 }]));
}

#[test]
fn a_discriminant_is_turned_down() {
    let tagged = Variant { discriminant: true, fields: Fields::Unit };
    assert_eq!(impl_enum(&vec![unit(), tagged, tuple(1)]), Err(Unsupported::Discriminant(1)));
}

#[test]
fn named_fields_are_turned_down() {
    let record = Variant { discriminant: false, fields: Fields::Named };
    assert_eq!(impl_enum(&vec![tuple(1), unit(), record]), Err(Unsupported::StructLike(2)));
}

#[test]
fn the_first_offending_variant_is_reported() {
    let record = Variant { discriminant: false, fields: Fields::Named };
    let tagged = Variant { discriminant: true, fields: Fields::Unit };
    assert_eq!(impl_enum(&vec![record, tagged]), Err(Unsupported::StructLike(0)));
    let record = Variant { discriminant: false, fields: Fields::Named };
    let tagged = Variant { discriminant: true, fields: Fields::Unit };
    assert_eq!(impl_enum(&vec![tagged, record]), Err(Unsupported::Discriminant(0)));
}

#[test]
fn a_discriminant_is_found_before_the_fields_are_read() {
    let both = Variant { discriminant: true, fields: Fields::Named };
    assert_eq!(impl_enum(&vec![both]), Err(Unsupported::Discriminant(0)));
}

#[test]
fn only_variant_types_are_bound() {
    assert_eq!(caml_type(&Data::Struct), Err(Unsupported::Record));
    assert_eq!(
        caml_type(&Data::Enum(vec![unit(), tuple(1)])),
        Ok(vec![Ctor::Inline { tag: 0 }, Ctor::Block { tag: 0, arity: 1 }])
    );
}

#[test]
fn each_rejection_has_its_diagnostic() {
    assert_eq!(
        Unsupported::Discriminant(3).message(),
        "caml_type! does not support variants with discriminants"
    );
    assert_eq!(
        Unsupported::StructLike(0).message(),
        "caml_type! does not support struct-like variants"
    );
    assert_eq!(Unsupported::Record.message(), "caml_type! does not support structs");
}
