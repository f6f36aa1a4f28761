use std::collections::HashSet;

use typeless_arena::{Arena, Counter, Ref, Store};

#[test]
fn references_differ_by_identity_alone() {
    let mut ids = Counter::new();
    let mut first = Arena::<32>::new(&mut ids);
    let mut second = Arena::<32>::new(&mut ids);
    let a = first.allocate(1u64);
    let b = second.allocate(1u64);

    assert_eq!(a.as_ptr(), b.as_ptr());
    assert_eq!(a.len(), b.len());
    assert_ne!(a.arena_id(), b.arena_id());
    assert_ne!(a, b);
    assert_eq!(a, Ref::new(first.arena_id(), a.as_ptr(), 8));
}

#[test]
fn references_differ_by_place_and_length() {
    let a: Ref<str> = Ref::new(3, 4096, 5);
    assert_eq!(a, Ref::new(3, 4096, 5));
    assert_ne!(a, Ref::new(3, 4097, 5));
    assert_ne!(a, Ref::new(3, 4096, 6));
    assert_ne!(a, Ref::new(4, 4096, 5));
}

#[test]
fn handles_differ_by_identity_alone() {
    let mut ids = Counter::new();
    let mut first = Store::new(&mut ids);
    let mut second = Store::new(&mut ids);
    let a = first.allocate("x");
    let b = second.allocate("x");
    let c = first.allocate("y");

    assert_eq!(a.index(), b.index());
    assert_ne!(a, b);
    assert_ne!(a, c);
    let copy = a;
    assert_eq!(a, copy);
}

#[test]
fn references_and_handles_are_keys() {
    let mut ids = Counter::new();
    let mut arena = Arena::<32>::new(&mut ids);
    let mut store = Store::new(&mut ids);

    let mut refs = HashSet::new();
    let r = arena.allocate(1u8);
    refs.insert(r);
    refs.insert(r);
    refs.insert(arena.allocate(1u8));
    assert_eq!(refs.len(), 2);

    let mut texts = HashSet::new();
    let t = arena.alloc_str("key");
    texts.insert(t);
    texts.insert(t.clone());
    assert_eq!(texts.len(), 1);

    let mut handles = HashSet::new();
    let h = store.allocate(1u8);
    handles.insert(h);
    handles.insert(h);
    handles.insert(store.allocate(1u8));
    assert_eq!(handles.len(), 2);
}
