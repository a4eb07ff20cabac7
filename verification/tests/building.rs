use mechaml::macros::local;
use mechaml::matching::{match_, Matcher};
use mechaml::mem::{Build, Gc, Ref};
use mechaml::raw::{int_val, val_int, Value};
use mechaml::stdlib::list;
use mechaml::stdlib::option;
use mechaml::stdlib::pervasives::{int_, Cons, List, Nil, None_, Option_, Some_};

#[test]
fn an_integer_builds_without_allocating() {
    let mut gc = Gc::new();
    let r = int_::from(43).build(&mut gc);
    assert_eq!(r.raw, Value(87));
    assert_eq!(gc.runtime().allocated(), 0);
}

#[test]
fn nil_builds_to_the_immediate_zero() {
    let mut gc = Gc::new();
    let r: Ref<List<int_>> = Nil().build(&mut gc);
    assert_eq!(r.raw, val_int(0));
    assert!(!r.raw.is_block());
    assert_eq!(gc.runtime().allocated(), 0);
}

#[test]
fn none_builds_to_an_immediate_and_some_to_a_pointer() {
    let mut gc = Gc::new();
    let none: Ref<Option_<int_>> = None_().build(&mut gc);
    assert_eq!(none.raw, Value(1));
    assert!(!none.raw.is_block());
    assert_eq!(gc.runtime().allocated(), 0);
    let some = Some_(int_::from(7)).build(&mut gc);
    assert!(some.raw.is_block());
    assert_ne!(some.raw, none.raw);
    assert_eq!(gc.runtime().allocated(), 1);
    assert_eq!(gc.runtime().tag_of(some.raw), 0);
    let fields = gc.runtime().fields_of(some.raw);
    assert_eq!(fields.len(), 1);
    assert!(!fields[0].is_block());
    assert_eq!(int_val(fields[0].0), 7);
    match match_(&gc, some) {
        Matcher::Block(option::tag::Block::Some_, inner) => {
            assert_eq!(inner.raw, val_int(7));
            assert_eq!(int_::of(inner).to_isize(), 7);
        }
        _ => panic!("a present value is a block"),
    }
    match match_(&gc, none) {
        Matcher::Inline(option::tag::Inline::None_) => {}
        _ => panic!("the absent value is unboxed"),
    }
}

#[test]
fn a_list_of_two_is_matched_level_by_level() {
    let mut gc = Gc::new();
    let lst = local(&mut gc, Cons(int_::from(1), Cons(int_::from(2), Nil())));
    let whole = lst.as_ref(&gc);
    let rest = match match_(&gc, whole) {
        Matcher::Block(list::tag::Block::Cons, (hd, tl)) => {
            assert_eq!(hd.raw, val_int(1));
            assert!(tl.raw.is_block());
            tl
        }
        _ => panic!("a list of two is a block"),
    };
    let end = match match_(&gc, rest) {
        Matcher::Block(list::tag::Block::Cons, (hd, tl)) => {
            assert_eq!(hd.raw, val_int(2));
            assert!(!tl.raw.is_block());
            assert_eq!(tl.raw, val_int(0));
            tl
        }
        _ => panic!("the rest of a list of two is a block"),
    };
    match match_(&gc, end) {
        Matcher::Inline(list::tag::Inline::Nil) => {}
        _ => panic!("the end of a list is unboxed"),
    }
    assert_eq!(gc.runtime().allocated(), 2);
    lst.unregister(&mut gc);
}

#[test]
fn a_compound_of_compounds_survives_its_own_allocations() {
    let mut gc = Gc::new();
    let built = Cons(
        Some_(int_::from(10)),
        Cons(Some_(int_::from(20)), Cons(Some_(int_::from(30)), Nil())),
    )
    .build(&mut gc);
    assert_eq!(gc.runtime().allocated(), 6);
    assert_eq!(gc.runtime().local_roots(), 0);
    let mut at = built.raw;
    for expected in [10, 20, 30] {
        assert!(gc.runtime().is_valid(at));
        assert!(at.is_block());
        let fields = gc.runtime().fields_of(at);
        assert_eq!(fields.len(), 2);
        let item = fields[0];
        assert!(item.is_block());
        assert!(gc.runtime().is_valid(item));
        assert_eq!(gc.runtime().fields_of(item), &[val_int(expected)]);
        at = fields[1];
    }
    assert_eq!(at, val_int(0));
}

#[test]
fn each_part_is_rooted_before_the_next_allocation() {
    let mut gc = Gc::new();
    let first = local(&mut gc, Some_(int_::from(1)));
    assert_eq!(gc.runtime().allocated(), 1);
    assert!(gc.runtime().is_protected(first.value(&gc)));
    let second = local(&mut gc, Some_(int_::from(2)));
    assert_eq!(gc.runtime().allocated(), 2);
    assert!(gc.runtime().is_valid(first.value(&gc)));
    assert!(gc.runtime().is_protected(second.value(&gc)));
    let pair = gc.raw_alloc::<List<Option_<int_>>>(0, &[first.value(&gc), second.value(&gc)]);
    assert_eq!(gc.runtime().allocated(), 3);
    assert!(gc.runtime().is_valid(first.value(&gc)));
    assert!(gc.runtime().is_valid(second.value(&gc)));
    assert_eq!(gc.runtime().fields_of(pair.raw), &[first.value(&gc), second.value(&gc)]);
    second.unregister(&mut gc);
    first.unregister(&mut gc);
}

#[test]
fn a_part_left_unrooted_is_lost_to_the_next_allocation() {
    let mut gc = Gc::new();
    let first = Some_(int_::from(1)).build(&mut gc);
    assert!(gc.runtime().is_valid(first.raw));
    let second = Some_(int_::from(2)).build(&mut gc);
    assert!(!gc.runtime().is_valid(first.raw));
    assert!(gc.runtime().is_valid(second.raw));
}

#[test]
fn a_rooted_reference_builds_into_itself() {
    let mut gc = Gc::new();
    let tail = local(&mut gc, Cons(int_::from(2), Nil()));
    let blocks = gc.runtime().allocated();
    let same = tail.as_ref(&gc).build(&mut gc);
    assert_eq!(same.raw, tail.value(&gc));
    assert_eq!(gc.runtime().allocated(), blocks);
    let longer = Cons(int_::from(1), tail.as_ref(&gc)).build(&mut gc);
    assert_eq!(gc.runtime().allocated(), blocks + 1);
    assert_eq!(gc.runtime().fields_of(longer.raw), &[val_int(1), tail.value(&gc)]);
    tail.unregister(&mut gc);
}

fn increment(gc: &mut Gc, at: usize) -> Ref<List<int_>> {
    let lst: Ref<List<int_>> = Ref::from_raw(gc.runtime().slot(at));
    match match_(gc, lst) {
        Matcher::Inline(_) => lst,
        Matcher::Block(_, (hd, tl)) => {
            let next = int_::of(hd) + int_::from(1);
            let rest = local(gc, tl);
            let depth = gc.runtime().local_roots();
            let mapped = increment(gc, depth);
            let done = local(gc, mapped);
            let r = Cons(next, done.as_ref(gc)).build(gc);
            done.unregister(gc);
            rest.unregister(gc);
            r
        }
    }
}

#[test]
fn a_list_is_mapped_over_with_rooted_temporaries() {
    let mut gc = Gc::new();
    let input = local(
        &mut gc,
        Cons(int_::from(1), Cons(int_::from(2), Cons(int_::from(3), Nil()))),
    );
    let output = increment(&mut gc, 1);
    let output = local(&mut gc, output);
    let mut seen: Vec<isize> = Vec::new();
    let mut at = output.value(&gc);
    while at.is_block() {
        assert!(gc.runtime().is_valid(at));
        let fields = gc.runtime().fields_of(at);
        seen.push(int_val(fields[0].0));
        at = fields[1];
    }
    assert_eq!(seen, vec![2, 3, 4]);
    let mut kept: Vec<isize> = Vec::new();
    let mut at = input.value(&gc);
    while at.is_block() {
        let fields = gc.runtime().fields_of(at);
        kept.push(int_val(fields[0].0));
        at = fields[1];
    }
    assert_eq!(kept, vec![1, 2, 3]);
    output.unregister(&mut gc);
    input.unregister(&mut gc);
    assert_eq!(gc.runtime().local_roots(), 0);
}

#[test]
fn nested_options_build_from_the_inside() {
    let mut gc = Gc::new();
    let x = local(&mut gc, Some_(Some_(Some_(int_::from(43)))));
    assert_eq!(gc.runtime().allocated(), 3);
    let outer = x.as_ref(&gc);
    let middle = match match_(&gc, outer) {
        Matcher::Block(_, inner) => inner,
        _ => panic!("a present value is a block"),
    };
    let inner = match match_(&gc, middle) {
        Matcher::Block(_, inner) => inner,
        _ => panic!("a present value is a block"),
    };
    match match_(&gc, inner) {
        Matcher::Block(_, number) => assert_eq!(int_::of(number).to_isize(), 43),
        _ => panic!("a present value is a block"),
    }
    x.unregister(&mut gc);
}
