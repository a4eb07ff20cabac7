use mechaml::macros::local;
use mechaml::mem::{Build, CamlRootsBlock, Gc, Ref, P};
use mechaml::raw::{allocate, val_int, Value};
use mechaml::runtime::Runtime;
use mechaml::stdlib::pervasives::{int_, Cons, List, Nil, Some_};

#[test]
fn a_new_context_has_an_empty_chain() {
    let gc = Gc::new();
    assert_eq!(gc.runtime().local_roots(), 0);
    assert_eq!(gc.runtime().allocated(), 0);
}

#[test]
fn a_new_pointer_holds_the_immediate_zero() {
    let gc = Gc::new();
    let p: P<int_> = P::new();
    assert_eq!(p.value(&gc), val_int(0));
    assert_eq!(p.value(&gc), Value(1));
}

#[test]
fn a_pointer_from_a_raw_value_holds_it() {
    let mut gc = Gc::new();
    let mut p: P<int_> = P::from(val_int(20));
    assert_eq!(p.value(&gc), Value(41));
    p.register(&mut gc);
    assert_eq!(p.value(&gc), Value(41));
    assert_eq!(p.as_ref(&gc).raw, Value(41));
    p.unregister(&mut gc);
}

#[test]
fn registering_pushes_and_unregistering_pops() {
    let mut gc = Gc::new();
    let mut a: P<int_> = P::new();
    let mut b: P<int_> = P::new();
    a.register(&mut gc);
    assert_eq!(gc.runtime().local_roots(), 1);
    b.register(&mut gc);
    assert_eq!(gc.runtime().local_roots(), 2);
    b.unregister(&mut gc);
    assert_eq!(gc.runtime().local_roots(), 1);
    a.unregister(&mut gc);
    assert_eq!(gc.runtime().local_roots(), 0);
}

#[test]
fn the_chain_is_balanced_after_a_scope_of_handles() {
    let mut gc = Gc::new();
    let mut outer: P<int_> = P::from(val_int(9));
    outer.register(&mut gc);
    let head = gc.runtime().local_roots();
    {
        let mut handles: Vec<P<int_>> = Vec::new();
        for i in 0..5 {
            let mut p: P<int_> = P::from(val_int(i));
            p.register(&mut gc);
            handles.push(p);
        }
        assert_eq!(gc.runtime().local_roots(), head + 5);
        while let Some(p) = handles.pop() {
            p.unregister(&mut gc);
        }
    }
    assert_eq!(gc.runtime().local_roots(), head);
    assert_eq!(outer.value(&gc), val_int(9));
    outer.unregister(&mut gc);
}

#[test]
fn the_chain_is_balanced_after_a_build() {
    let mut gc = Gc::new();
    let kept = local(&mut gc, Some_(int_::from(5)));
    let head = gc.runtime().local_roots();
    let slot = kept.value(&gc);
    let built = Cons(Some_(int_::from(1)), Cons(Some_(int_::from(2)), Nil())).build(&mut gc);
    assert_eq!(gc.runtime().local_roots(), head);
    assert_eq!(kept.value(&gc), slot);
    assert!(gc.runtime().is_valid(built.raw));
    kept.unregister(&mut gc);
    assert_eq!(gc.runtime().local_roots(), 0);
}

#[test]
fn a_handle_reads_from_the_same_slot_while_others_come_and_go() {
    let mut gc = Gc::new();
    let first = local(&mut gc, Some_(int_::from(1)));
    let word = first.value(&gc);
    for i in 0..4 {
        let other = local(&mut gc, Some_(int_::from(i)));
        assert_eq!(first.value(&gc), word);
        assert_eq!(first.as_ref(&gc).raw, word);
        assert_eq!(gc.runtime().slot(1), word);
        other.unregister(&mut gc);
    }
    assert_eq!(first.value(&gc), word);
    first.unregister(&mut gc);
}

#[test]
fn rooting_overwrites_the_slot() {
    let mut gc = Gc::new();
    let mut p: P<List<int_>> = P::new();
    p.register(&mut gc);
    assert_eq!(p.value(&gc), Value(1));
    let nil: Ref<List<int_>> = Nil().build(&mut gc);
    p.root(&mut gc, nil);
    assert_eq!(p.value(&gc), Value(1));
    let one = Cons(int_::from(1), Nil()).build(&mut gc);
    p.root(&mut gc, one);
    assert_eq!(p.value(&gc), one.raw);
    assert!(gc.runtime().is_protected(one.raw));
    p.unregister(&mut gc);
    assert!(!gc.runtime().is_protected(one.raw));
}

#[test]
fn a_rooted_block_outlives_allocations() {
    let mut gc = Gc::new();
    let kept = local(&mut gc, Cons(int_::from(1), Nil()));
    let word = kept.value(&gc);
    for i in 0..3 {
        let _ = Some_(int_::from(i)).build(&mut gc);
        assert!(gc.runtime().is_valid(word));
        assert_eq!(gc.runtime().fields_of(word), &[val_int(1), val_int(0)]);
    }
    kept.unregister(&mut gc);
    let _ = Some_(int_::from(0)).build(&mut gc);
    assert!(!gc.runtime().is_valid(word));
}

#[test]
fn what_a_rooted_block_refers_to_is_kept_too() {
    let mut gc = Gc::new();
    let kept = local(&mut gc, Some_(Some_(Some_(int_::from(43)))));
    let outer = kept.value(&gc);
    let middle = gc.runtime().fields_of(outer)[0];
    let inner = gc.runtime().fields_of(middle)[0];
    let _ = Some_(int_::from(0)).build(&mut gc);
    assert!(gc.runtime().is_valid(outer));
    assert!(gc.runtime().is_valid(middle));
    assert!(gc.runtime().is_valid(inner));
    assert!(gc.runtime().is_protected(inner));
    assert_eq!(gc.runtime().fields_of(inner), &[val_int(43)]);
    kept.unregister(&mut gc);
}

#[test]
fn frames_link_to_the_head_before_them() {
    let mut rt = Runtime::new();
    let a = rt.push_frame(CamlRootsBlock { next: 0, ntables: 1, nitems: 1, tables: [val_int(1)] });
    assert_eq!(a, 1);
    let b = rt.push_frame(CamlRootsBlock { next: a, ntables: 1, nitems: 1, tables: [val_int(2)] });
    assert_eq!(b, 2);
    assert_eq!(rt.local_roots(), 2);
    assert_eq!(rt.slot(1), val_int(1));
    assert_eq!(rt.slot(2), val_int(2));
    rt.set_slot(1, val_int(7));
    assert_eq!(rt.slot(1), val_int(7));
    assert_eq!(rt.slot(2), val_int(2));
    rt.pop_frame(b);
    assert_eq!(rt.local_roots(), 1);
    rt.pop_frame(a);
    assert_eq!(rt.local_roots(), 0);
}

#[test]
fn a_root_slot_protects_a_block_across_allocations() {
    let mut rt = Runtime::new();
    let a = allocate(&mut rt, 1, &[val_int(1)]);
    let at = rt.push_frame(CamlRootsBlock { next: 0, ntables: 1, nitems: 1, tables: [a] });
    assert!(rt.is_protected(a));
    let b = allocate(&mut rt, 2, &[a]);
    assert!(rt.is_valid(a));
    assert!(rt.is_valid(b));
    rt.set_slot(at, b);
    let c = allocate(&mut rt, 3, &[]);
    assert!(rt.is_valid(a));
    assert!(rt.is_valid(b));
    assert!(rt.is_valid(c));
    rt.set_slot(at, val_int(0));
    let d = allocate(&mut rt, 4, &[]);
    assert!(!rt.is_valid(a));
    assert!(!rt.is_valid(b));
    assert!(!rt.is_valid(c));
    assert!(rt.is_valid(d));
    rt.pop_frame(at);
}
