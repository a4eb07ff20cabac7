use mechaml::raw::{allocate, int_val, val_int, Value};
use mechaml::runtime::Runtime;

#[test]
fn encodes_small_integers() {
    assert_eq!(val_int(0), Value(1));
    assert_eq!(val_int(1), Value(3));
    assert_eq!(val_int(3), Value(7));
    assert_eq!(val_int(-1), Value(-1));
    assert_eq!(val_int(-5), Value(-9));
    assert_eq!(val_int(43), Value(87));
}

#[test]
fn decodes_small_integers() {
    assert_eq!(int_val(1), 0);
    assert_eq!(int_val(7), 3);
    assert_eq!(int_val(-1), -1);
    assert_eq!(int_val(-9), -5);
    assert_eq!(int_val(87), 43);
}

#[test]
fn decoding_undoes_encoding_within_the_immediate_width() {
    let top: isize = isize::MAX / 2;
    let bottom: isize = isize::MIN / 2;
    for i in [0, 1, -1, 2, -2, 1000, -1000, 123456789, -987654321, top, top - 1, bottom, bottom + 1] {
        assert_eq!(int_val(val_int(i).0), i);
    }
}

#[test]
fn encoding_outside_the_immediate_width_wraps() {
    let top: isize = isize::MAX / 2;
    assert_eq!(val_int(top + 1), Value(isize::MIN + 1));
    assert_eq!(int_val(val_int(top + 1).0), isize::MIN / 2);
    assert_eq!(val_int(isize::MAX), Value(-1));
    assert_eq!(val_int(isize::MIN), Value(1));
}

#[test]
fn immediates_have_the_lowest_bit_set() {
    for i in [0, 1, -1, 77, -78, isize::MAX, isize::MIN] {
        assert!(!val_int(i).is_block());
        assert_eq!(val_int(i).0 & 1, 1);
    }
    assert!(Value(8).is_block());
    assert!(Value(0).is_block());
    assert!(!Value(9).is_block());
}

#[test]
fn allocate_returns_aligned_pointers_in_order() {
    let mut rt = Runtime::new();
    let a = allocate(&mut rt, 3, &[val_int(5), val_int(6)]);
    assert_eq!(a, Value(8));
    assert!(a.is_block());
    assert_eq!(rt.tag_of(a), 3);
    assert_eq!(rt.fields_of(a), &[Value(11), Value(13)]);
    assert_eq!(rt.allocated(), 1);
}

#[test]
fn allocate_of_no_fields_makes_an_empty_block() {
    let mut rt = Runtime::new();
    let a = allocate(&mut rt, 9, &[]);
    assert!(a.is_block());
    assert!(rt.is_valid(a));
    assert_eq!(rt.tag_of(a), 9);
    assert_eq!(rt.fields_of(a).len(), 0);
}

#[test]
fn an_unrooted_block_does_not_outlive_the_next_allocation() {
    let mut rt = Runtime::new();
    let a = allocate(&mut rt, 0, &[val_int(1)]);
    assert!(rt.is_valid(a));
    assert!(!rt.is_protected(a));
    let b = allocate(&mut rt, 0, &[val_int(2)]);
    assert!(!rt.is_valid(a));
    assert!(rt.is_valid(b));
    assert_eq!(b, Value(16));
}

#[test]
fn caml_alloc_hands_out_a_block_of_immediates() {
    let mut rt = Runtime::new();
    let a = rt.caml_alloc(3, 7);
    assert_eq!(rt.tag_of(a), 7);
    assert_eq!(rt.fields_of(a), &[Value(1), Value(1), Value(1)]);
    rt.caml_modify(a, 1, val_int(21));
    assert_eq!(rt.fields_of(a), &[Value(1), Value(43), Value(1)]);
}

#[test]
fn validity_of_words_that_point_nowhere() {
    let mut rt = Runtime::new();
    let a = allocate(&mut rt, 0, &[]);
    assert!(rt.is_valid(a));
    assert!(rt.is_valid(val_int(12)));
    assert!(!rt.is_valid(Value(0)));
    assert!(!rt.is_valid(Value(4)));
    assert!(!rt.is_valid(Value(16)));
    assert!(!rt.is_valid(Value(-8)));
    assert!(rt.is_protected(val_int(12)));
    assert!(!rt.is_protected(Value(16)));
    assert!(!rt.is_protected(Value(-8)));
}

#[test]
fn room_is_counted_in_blocks() {
    let mut rt = Runtime::new();
    let limit = (isize::MAX / 8) as usize;
    assert!(rt.has_room(0));
    assert!(rt.has_room(limit));
    assert!(!rt.has_room(limit + 1));
    allocate(&mut rt, 0, &[]);
    assert!(rt.has_room(limit - 1));
    assert!(!rt.has_room(limit));
}
