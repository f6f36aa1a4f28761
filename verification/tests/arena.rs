use typeless_arena::{Arena, Counter, Ref};

fn mutate_arena(arena: &mut Arena<32>) {
    // some allocation padding and block overflow checks

    let r1 = arena.allocate(1234u64); // u64 = 8 bytes
    assert_eq!(arena.get(r1), Some(1234));
    assert_eq!(arena.offset(), 8);

    let r2 = arena.allocate(4321u32); // u32 = 4 bytes
    assert_eq!(arena.get(r2), Some(4321));
    assert_eq!(arena.offset(), 8 + 4);

    let r3 = arena.allocate(1010u64); // u64 = 8 bytes
    assert_eq!(arena.get(r3), Some(1010));
    assert_eq!(arena.offset(), 8 + 4 + /*padding*/ 4 + 8); // alignment adds padding of 4 bytes

    let r4 = arena.allocate(u64::MAX); // u64 = 8 bytes
    assert_eq!(arena.get(r4), Some(u64::MAX));
    assert_eq!(arena.offset(), 32);

    assert_eq!(arena.cur_block(), 0); // still no new block allocated

    let r5 = arena.allocate(u64::MIN);
    assert_eq!(arena.get(r5), Some(u64::MIN));
    // arena was full, new block was allocated
    assert_eq!(arena.offset(), 8);
    assert_eq!(arena.cur_block(), 1);
}

fn test_auto_traits<T: Unpin>() {}

#[test]
fn test_arena() {
    let mut ids = Counter::new();
    let mut arena = Arena::<32>::new(&mut ids);

    mutate_arena(&mut arena);
    arena.clear();
    // arena should behave equally clearing
    mutate_arena(&mut arena);

    let old = arena.allocate(555);
    assert_eq!(arena.get(old), Some(555));

    drop(arena);

    let mut arena2 = Arena::<0>::new(&mut ids);

    // wrong arena
    assert_eq!(arena2.get(old), None);

    // a zero-sized arena would allocate a new block for every alloc call
    // (this should work, but it wouldn't make sense to use it that way)
    let x = arena2.allocate(123123);
    assert_eq!(arena2.get(x), Some(123123));
    assert_eq!(arena2.offset(), 0);

    test_auto_traits::<Arena<1024>>();
}

#[test]
fn test_arena_str() {
    let mut ids = Counter::new();
    let mut arena = Arena::<16>::new(&mut ids);

    let r = arena.alloc_str("yote");
    assert_eq!(arena.get_str(r), Some("yote"));
    assert_eq!(arena.offset(), 4);

    let x = arena.alloc_str("yöte");
    assert_eq!(arena.get_str(x), Some("yöte"));
    assert_eq!(arena.offset(), 9);

    let a = arena.alloc_str("123456");
    assert_eq!(arena.get_str(a), Some("123456"));
    assert_eq!(arena.offset(), 15);

    let b = arena.alloc_str("1234");
    assert_eq!(arena.get_str(b), Some("1234"));
    assert_eq!(arena.offset(), 4);

    let c = arena.alloc_str("3");
    let d = arena.alloc_str("4");
    assert_eq!(arena.get_str(c), Some("3"));
    assert_eq!(arena.get_str(d), Some("4"));
    assert_eq!(arena.offset(), 6);
}

#[test]
fn reference_keeps_what_it_was_made_of() {
    let r: Ref<u32> = Ref::new(7, 4096, 4);
    assert_eq!(r.arena_id(), 7);
    assert_eq!(r.as_ptr(), 4096);
    assert_eq!(r.len(), 4);
}

#[test]
fn value_reads_back_after_allocation() {
    let mut ids = Counter::new();
    let mut arena = Arena::<64>::new(&mut ids);

    let a = arena.allocate(0xabu8);
    let b = arena.allocate(0xbeefu16);
    let c = arena.allocate(0xdead_beefu32);
    let d = arena.allocate(0x0123_4567_89ab_cdefu64);
    let e = arena.allocate(-5i32);
    let f = arena.allocate(i64::MIN);

    assert_eq!(arena.get(a), Some(0xab));
    assert_eq!(arena.get(b), Some(0xbeef));
    assert_eq!(arena.get(c), Some(0xdead_beef));
    assert_eq!(arena.get(d), Some(0x0123_4567_89ab_cdef));
    assert_eq!(arena.get(e), Some(-5));
    assert_eq!(arena.get(f), Some(i64::MIN));
}

#[test]
fn addresses_are_aligned_and_start_one_page_up() {
    let mut ids = Counter::new();
    let mut arena = Arena::<64>::new(&mut ids);

    let a = arena.allocate(1u8);
    assert_eq!(a.as_ptr(), 4096);
    assert_eq!(a.len(), 1);
    let b = arena.allocate(2u16);
    assert_eq!(b.as_ptr(), 4098);
    let c = arena.allocate(3u64);
    assert_eq!(c.as_ptr(), 4104);
    assert_eq!(c.len(), 8);
    let d = arena.allocate(4u8);
    assert_eq!(d.as_ptr(), 4112);
    let e = arena.allocate(5u32);
    assert_eq!(e.as_ptr(), 4116);
    assert_eq!(arena.offset(), 24);
}

#[test]
fn reference_from_another_arena_is_refused() {
    let mut ids = Counter::new();
    let mut first = Arena::<32>::new(&mut ids);
    let mut second = Arena::<32>::new(&mut ids);
    assert_ne!(first.arena_id(), second.arena_id());

    let r = first.allocate(7u64);
    let s = second.allocate(9u64);
    // the same place in either arena
    assert_eq!(r.as_ptr(), s.as_ptr());

    assert_eq!(second.get(r), None);
    assert_eq!(first.get(s), None);
    assert_eq!(second.get_mut(r, 1), None);
    assert_eq!(second.get(s), Some(9));
    assert_eq!(first.get(r), Some(7));
}

#[test]
fn reference_outlives_its_arena_unresolved() {
    let mut ids = Counter::new();
    let mut arena = Arena::<32>::new(&mut ids);
    let t = arena.alloc_str("left behind");
    let r = arena.allocate(1u32);
    drop(arena);

    let mut later = Arena::<32>::new(&mut ids);
    later.alloc_str("left behind");
    later.allocate(1u32);
    assert_eq!(later.get_str(t), None);
    assert_eq!(later.get(r), None);
}

#[test]
fn full_block_rolls_over_to_the_next() {
    let mut ids = Counter::new();
    let mut arena = Arena::<32>::new(&mut ids);
    for n in 0..4u64 {
        arena.allocate(n);
    }
    assert_eq!(arena.offset(), 32);
    assert_eq!(arena.cur_block(), 0);
    assert_eq!(arena.block_count(), 1);

    let r = arena.allocate(9u8);
    assert_eq!(arena.cur_block(), 1);
    assert_eq!(arena.block_count(), 2);
    assert_eq!(arena.offset(), 1);
    // the second block starts on the next page
    assert_eq!(r.as_ptr(), 8192);
    assert_eq!(arena.get(r), Some(9));
}

#[test]
fn padding_that_does_not_fit_rolls_over() {
    let mut ids = Counter::new();
    let mut arena = Arena::<16>::new(&mut ids);
    arena.allocate(1u64);
    arena.allocate(2u8);
    assert_eq!(arena.offset(), 9);

    // 7 bytes of padding and 8 bytes of value are more than the 7 left
    let r = arena.allocate(3u64);
    assert_eq!(arena.cur_block(), 1);
    assert_eq!(arena.offset(), 8);
    assert_eq!(r.as_ptr(), 8192);
}

#[test]
fn oversized_value_leaves_the_writable_position() {
    let mut ids = Counter::new();
    let mut arena = Arena::<16>::new(&mut ids);
    let small = arena.allocate(1u32);
    assert_eq!(arena.offset(), 4);
    assert_eq!(arena.cur_block(), 0);

    let big = arena.alloc_str("as long as a block and longer");
    assert_eq!(arena.offset(), 4);
    assert_eq!(arena.cur_block(), 1);
    assert_eq!(arena.block_count(), 2);
    assert_eq!(big.as_ptr(), 8192);
    assert_eq!(big.len(), 29);

    // the next value lies where it would have lain anyway
    let next = arena.allocate(2u32);
    assert_eq!(next.as_ptr(), small.as_ptr() + 4);
    assert_eq!(arena.offset(), 8);
    assert_eq!(arena.cur_block(), 1);

    assert_eq!(arena.get(small), Some(1));
    assert_eq!(arena.get_str(big), Some("as long as a block and longer"));
    assert_eq!(arena.get(next), Some(2));
}

#[test]
fn value_as_long_as_a_block_gets_its_own() {
    let mut ids = Counter::new();
    let mut arena = Arena::<8>::new(&mut ids);
    let r = arena.allocate(77u64);
    assert_eq!(arena.offset(), 0);
    assert_eq!(arena.cur_block(), 1);
    assert_eq!(r.as_ptr(), 8192);
    assert_eq!(arena.get(r), Some(77));
}

fn replay(arena: &mut Arena<16>) -> Vec<(usize, usize, usize)> {
    let mut trace = Vec::new();
    let a = arena.allocate(1u64);
    trace.push((arena.cur_block(), arena.offset(), a.as_ptr()));
    let b = arena.alloc_str("a text of more than sixteen bytes");
    trace.push((arena.cur_block(), arena.offset(), b.len()));
    let c = arena.allocate(2u8);
    trace.push((arena.cur_block(), arena.offset(), c.as_ptr()));
    let d = arena.allocate(3u64);
    trace.push((arena.cur_block(), arena.offset(), d.len()));
    let e = arena.alloc_str("tail");
    trace.push((arena.cur_block(), arena.offset(), e.len()));
    trace
}

#[test]
fn clear_replays_offsets_and_blocks() {
    let mut ids = Counter::new();
    let mut arena = Arena::<16>::new(&mut ids);
    let before = replay(&mut arena);
    assert_eq!(
        before,
        vec![(0, 8, 4096), (1, 8, 33), (1, 9, 4104), (2, 8, 8), (2, 12, 4)]
    );
    arena.clear();
    assert_eq!(arena.cur_block(), 0);
    assert_eq!(arena.offset(), 0);
    let after = replay(&mut arena);
    assert_eq!(
        after.iter().map(|s| (s.0, s.1)).collect::<Vec<_>>(),
        before.iter().map(|s| (s.0, s.1)).collect::<Vec<_>>()
    );
}

#[test]
fn clear_keeps_blocks_and_lets_old_references_go_stale() {
    let mut ids = Counter::new();
    let mut arena = Arena::<32>::new(&mut ids);
    let old = arena.allocate(1234u64);
    for n in 0..8u64 {
        arena.allocate(n);
    }
    let blocks = arena.block_count();
    assert_eq!(blocks, 3);

    arena.clear();
    assert_eq!(arena.block_count(), blocks);
    // not zeroed, not refused
    assert_eq!(arena.get(old), Some(1234));

    let new = arena.allocate(99u64);
    assert_eq!(new, old);
    assert_eq!(arena.get(old), Some(99));
    assert_eq!(arena.block_count(), blocks);
}

#[test]
fn text_keeps_its_bytes() {
    let mut ids = Counter::new();
    let mut arena = Arena::<64>::new(&mut ids);

    let text = "grüße, 世界 🦀";
    let r = arena.alloc_str(text);
    assert_eq!(r.len(), text.len());
    assert_eq!(arena.offset(), text.len());
    assert_ne!(arena.offset(), text.chars().count());
    let back = arena.get_str(r).unwrap();
    assert_eq!(back.as_bytes(), text.as_bytes());

    let empty = arena.alloc_str("");
    assert_eq!(empty.len(), 0);
    assert_eq!(arena.get_str(empty), Some(""));
    assert_eq!(arena.offset(), text.len());
}

#[test]
fn bytes_that_are_no_text_resolve_to_nothing() {
    let mut ids = Counter::new();
    let mut arena = Arena::<16>::new(&mut ids);
    let byte = arena.allocate(0xffu8);
    let letter = arena.allocate(b'a');

    let forged: Ref<str> = Ref::new(arena.arena_id(), byte.as_ptr(), 1);
    assert_eq!(arena.get_str(forged), None);
    let sound: Ref<str> = Ref::new(arena.arena_id(), letter.as_ptr(), 1);
    assert_eq!(arena.get_str(sound), Some("a"));
    let both: Ref<str> = Ref::new(arena.arena_id(), byte.as_ptr(), 2);
    assert_eq!(arena.get_str(both), None);
}

#[test]
fn reference_to_no_block_resolves_to_nothing() {
    let mut ids = Counter::new();
    let mut arena = Arena::<16>::new(&mut ids);
    let r = arena.allocate(5u64);
    let id = arena.arena_id();

    // below the first block, across its end, beyond the address space in use
    assert_eq!(arena.get(Ref::<u64>::new(id, 0, 8)), None);
    assert_eq!(arena.get(Ref::<u64>::new(id, 4095, 8)), None);
    assert_eq!(arena.get(Ref::<u64>::new(id, 4096 + 9, 8)), None);
    assert_eq!(arena.get(Ref::<u64>::new(id, 8192, 8)), None);
    assert_eq!(arena.get(Ref::<u64>::new(id, usize::MAX, 8)), None);
    // a length that is not the type's
    assert_eq!(arena.get(Ref::<u64>::new(id, r.as_ptr(), 4)), None);
    // the last eight bytes of the block
    assert_eq!(arena.get(Ref::<u64>::new(id, 4096 + 8, 8)), Some(0));
    assert_eq!(arena.get(Ref::<u64>::new(id, r.as_ptr(), 8)), Some(5));
}

#[test]
fn get_mut_exchanges_one_value() {
    let mut ids = Counter::new();
    let mut arena = Arena::<32>::new(&mut ids);
    let a = arena.allocate(1u32);
    let b = arena.allocate(2u32);
    let c = arena.allocate(3u64);

    assert_eq!(arena.get_mut(b, 20), Some(2));
    assert_eq!(arena.get(a), Some(1));
    assert_eq!(arena.get(b), Some(20));
    assert_eq!(arena.get(c), Some(3));
    assert_eq!(arena.offset(), 16);

    let forged: Ref<u32> = Ref::new(arena.arena_id() + 1, b.as_ptr(), 4);
    assert_eq!(arena.get_mut(forged, 7), None);
    assert_eq!(arena.get(b), Some(20));
}

#[test]
fn blocks_can_be_made_ahead() {
    let mut ids = Counter::new();
    let mut arena = Arena::<16>::with_blocks(2, &mut ids);
    assert_eq!(arena.block_count(), 3);
    assert_eq!(arena.cur_block(), 0);
    assert_eq!(arena.offset(), 0);
    for n in 0..6u64 {
        let r = arena.allocate(n);
        assert_eq!(r.as_ptr(), 4096 * (1 + n as usize / 2) + 8 * (n as usize % 2));
    }
    assert_eq!(arena.block_count(), 3);
    assert_eq!(arena.cur_block(), 2);
    arena.allocate(6u64);
    assert_eq!(arena.block_count(), 4);

    let none = Arena::<16>::with_blocks(0, &mut ids);
    assert_eq!(none.block_count(), 1);
}

#[test]
fn capacity_is_rounded_up_to_blocks() {
    let mut ids = Counter::new();
    assert_eq!(Arena::<16>::with_capacity(0, &mut ids).block_count(), 1);
    assert_eq!(Arena::<16>::with_capacity(1, &mut ids).block_count(), 2);
    assert_eq!(Arena::<16>::with_capacity(16, &mut ids).block_count(), 2);
    assert_eq!(Arena::<16>::with_capacity(17, &mut ids).block_count(), 3);
    assert_eq!(Arena::<16>::with_capacity(48, &mut ids).block_count(), 4);
    let arena = Arena::<5000>::with_capacity(5001, &mut ids);
    assert_eq!(arena.block_count(), 3);
    assert_eq!(arena.arena_id(), 5);
}

#[test]
fn oversized_value_among_blocks_made_ahead() {
    let mut ids = Counter::new();
    let mut arena = Arena::<16>::with_blocks(1, &mut ids);
    let a = arena.allocate(1u64);
    let big = arena.alloc_str("sixteen bytes!!!");
    assert_eq!(big.len(), 16);
    // the current block is still the first one made, now second in the list
    assert_eq!(arena.cur_block(), 1);
    assert_eq!(arena.offset(), 8);
    let b = arena.allocate(2u64);
    assert_eq!(b.as_ptr(), a.as_ptr() + 8);
    // and the block made ahead comes next
    let c = arena.allocate(3u64);
    assert_eq!(arena.cur_block(), 2);
    assert_eq!(c.as_ptr(), 8192);
    assert_eq!(arena.block_count(), 3);
    assert_eq!(arena.get_str(big), Some("sixteen bytes!!!"));
}

#[test]
fn address_space_is_accounted_for() {
    let mut ids = Counter::new();
    assert!(Arena::<16>::room_for(0));
    assert!(Arena::<16>::room_for(1000));
    assert!(!Arena::<16>::room_for(usize::MAX / 4096));
    assert!(Arena::<16>::room_for(usize::MAX / 4096 - 1));
    assert!(Arena::<{ usize::MAX }>::room_for(0));
    assert!(!Arena::<{ usize::MAX }>::room_for(1));

    let arena = Arena::<16>::new(&mut ids);
    assert!(arena.can_alloc(8, 8));
    assert!(arena.can_alloc(16, 1));
    assert!(arena.can_alloc(usize::MAX - 3 * 4096, 1));
    assert!(!arena.can_alloc(usize::MAX - 2 * 4096, 1));
    assert!(!arena.can_alloc(usize::MAX, 1));
}
