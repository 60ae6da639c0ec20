use std::cell::RefCell;

use bump_arena::arena::Arena;
use bump_arena::model::BLOCK_SIZE;

struct X<'a> {
    drop_cnt: &'a RefCell<i32>,
}

impl<'a> Drop for X<'a> {
    fn drop(&mut self) {
        *self.drop_cnt.borrow_mut() += 1;
    }
}

#[test]
fn it_works() {
    let drop_cnt = RefCell::new(0);
    {
        let mut arena = Arena::new();
        for _ in 0..1000 {
            arena.allocate(X { drop_cnt: &drop_cnt });
        }
        assert!(arena.bytes_allocated() > 0);
    }
    assert_eq!(*drop_cnt.borrow(), 1000);
}

#[test]
fn cleanup_runs_once_per_element_via_teardown() {
    let drop_cnt = RefCell::new(0);
    let mut arena = Arena::new();
    for _ in 0..77 {
        arena.allocate(X { drop_cnt: &drop_cnt });
    }
    let elems = arena.teardown();
    assert_eq!(elems.len(), 77);
    assert_eq!(*drop_cnt.borrow(), 0);
    drop(elems);
    assert_eq!(*drop_cnt.borrow(), 77);
}

#[test]
fn identifiers_count_from_zero_and_never_alias() {
    let mut arena: Arena<u64> = Arena::new();
    let mut ids = Vec::new();
    for k in 0..600u64 {
        let id = arena.allocate(k * 3 + 1);
        ids.push(id);
    }
    for (k, &id) in ids.iter().enumerate() {
        assert_eq!(id, k);
    }
    for k1 in 0..ids.len() {
        for k2 in 0..ids.len() {
            if k1 != k2 {
                assert_ne!(ids[k1], ids[k2]);
            }
        }
    }
}

#[test]
fn block_boundary_crossing_keeps_earlier_values() {
    // One block holds BLOCK_SIZE / 8 elements of `u64`; one more allocation
    // crosses into a second block.
    let per_block = BLOCK_SIZE / std::mem::size_of::<u64>();
    let n = per_block + 1;
    let mut arena: Arena<u64> = Arena::new();
    let mut ids = Vec::new();
    for k in 0..n {
        ids.push(arena.allocate(k as u64 * 11 + 3));
    }
    // All identifiers distinct (they count up from zero).
    for (k, &id) in ids.iter().enumerate() {
        assert_eq!(id, k);
    }
    // Every element still reads as the value originally written, across the
    // block transition.
    for k in 0..n {
        assert_eq!(*arena.get(ids[k]), k as u64 * 11 + 3);
    }
    // Exactly two blocks were requested.
    assert_eq!(arena.bytes_allocated(), 2 * BLOCK_SIZE);
}

#[test]
fn bytes_allocated_is_monotonic_and_positive() {
    let mut arena: Arena<u32> = Arena::new();
    assert_eq!(arena.bytes_allocated(), 0);
    let mut last = 0;
    for k in 0..5000u32 {
        arena.allocate(k);
        let now = arena.bytes_allocated();
        assert!(now > 0);
        assert!(now >= last);
        last = now;
    }
}

#[test]
fn first_block_is_default_sized() {
    let mut arena: Arena<u64> = Arena::new();
    arena.allocate(1);
    assert_eq!(arena.bytes_allocated(), BLOCK_SIZE);
    // Filling the rest of the block requests no further memory.
    let per_block = BLOCK_SIZE / std::mem::size_of::<u64>();
    for k in 1..per_block {
        arena.allocate(k as u64);
    }
    assert_eq!(arena.bytes_allocated(), BLOCK_SIZE);
}

#[test]
fn oversized_element_gets_one_dedicated_block() {
    // 8192 bytes per element: larger than the default block size.
    let mut arena: Arena<[u64; 1024]> = Arena::new();
    let mut first = [0u64; 1024];
    first[0] = 41;
    first[1023] = 42;
    let id0 = arena.allocate(first);
    // Exactly one block, sized to the element, was requested.
    assert_eq!(arena.bytes_allocated(), 8192);
    let mut second = [0u64; 1024];
    second[0] = 51;
    let id1 = arena.allocate(second);
    assert_eq!(arena.bytes_allocated(), 16384);
    assert_ne!(id0, id1);
    assert_eq!(arena.get(id0)[0], 41);
    assert_eq!(arena.get(id0)[1023], 42);
    assert_eq!(arena.get(id1)[0], 51);
}

#[test]
fn addresses_are_stable_across_growth() {
    let mut arena: Arena<String> = Arena::new();
    let id_a = arena.allocate(String::from("alpha"));
    let id_b = arena.allocate(String::from("beta"));
    // Force several new blocks.
    for k in 0..3000u32 {
        arena.allocate(k.to_string());
    }
    assert_eq!(arena.get(id_a), "alpha");
    assert_eq!(arena.get(id_b), "beta");
}

#[test]
fn get_mut_gives_exclusive_access_to_one_slot() {
    let mut arena: Arena<i64> = Arena::new();
    let id0 = arena.allocate(10);
    let id1 = arena.allocate(20);
    let id2 = arena.allocate(30);
    {
        let slot = arena.get_mut(id1);
        assert_eq!(*slot, 20);
        *slot = -7;
    }
    // Only the written slot changed.
    assert_eq!(*arena.get(id0), 10);
    assert_eq!(*arena.get(id1), -7);
    assert_eq!(*arena.get(id2), 30);
}

#[test]
fn teardown_yields_elements_in_allocation_order() {
    let mut arena: Arena<usize> = Arena::new();
    // Enough elements to span several blocks.
    let n = 3 * (BLOCK_SIZE / std::mem::size_of::<usize>()) + 5;
    for k in 0..n {
        arena.allocate(k);
    }
    let elems = arena.teardown();
    assert_eq!(elems.len(), n);
    for (k, &v) in elems.iter().enumerate() {
        assert_eq!(v, k);
    }
}

#[test]
fn try_allocate_succeeds_within_limits() {
    let mut arena: Arena<u8> = Arena::new();
    let r0 = arena.try_allocate(200);
    assert_eq!(r0, Ok(0));
    let r1 = arena.try_allocate(201);
    assert_eq!(r1, Ok(1));
    assert_eq!(*arena.get(0), 200);
    assert_eq!(*arena.get(1), 201);
}

#[test]
fn zero_sized_elements_share_one_block() {
    let mut arena: Arena<()> = Arena::new();
    for _ in 0..5 {
        arena.allocate(());
    }
    // The first allocation requested one default-sized block; nothing in it
    // is ever used up, so no further block is requested.
    assert_eq!(arena.bytes_allocated(), BLOCK_SIZE);
    let elems = arena.teardown();
    assert_eq!(elems.len(), 5);
}
