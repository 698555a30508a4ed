use rtils::arena::{Arena, Placement, BLOCK};
use rtils::sync::Ptr;

#[test]
fn arena_aligns_and_chains() {
    let mut a = Arena::new();
    assert_eq!(a.alloc_bytes(3, 1), Placement { block: 0, offset: 0 });
    assert_eq!(a.alloc_bytes(8, 8), Placement { block: 0, offset: 8 });
    assert_eq!(a.debug_mem_usage(), 16);
    assert_eq!(a.alloc_bytes(BLOCK - 10, 4), Placement { block: 1, offset: 0 });
    assert_eq!(a.alloc_bytes(4, 4), Placement { block: 0, offset: 16 });
    assert_eq!(a.debug_mem_usage(), 20 + BLOCK - 10);
    assert_eq!(a.alloc_bytes(BLOCK + 1, 1), Placement { block: 2, offset: 0 });
}

#[test]
fn sized_arena_rounds_up() {
    let mut a = Arena::new_sized(BLOCK + 5);
    assert_eq!(a.alloc_bytes(2 * BLOCK - 1, 1), Placement { block: 0, offset: 0 });
    assert_eq!(a.debug_mem_usage(), 2 * BLOCK - 1);
}

#[test]
fn ptr_shares_value() {
    let p = Ptr::create(5u32);
    let q = p.share();
    q.store(6);
    assert_eq!(p.load(), 6);
    let mut g = p.lock();
    g.set(7);
    g.release();
    assert_eq!(q.load(), 7);
}
