use rtils::heap::{calloc, calloc_shared, malloc, malloc_shared, realloc, realloc_shared, Block, CharPtr, Heap, Ptr, SharedPtr, SizeClass};

#[test]
fn heap_takes_first_free_block_of_class() {
    let mut h = Heap::new();
    assert_eq!(h.allocate(1), Some(Block { class: SizeClass::Small, index: 0 }));
    assert_eq!(h.allocate(32), Some(Block { class: SizeClass::Small, index: 1 }));
    assert_eq!(h.allocate(33), Some(Block { class: SizeClass::Medium, index: 0 }));
    assert_eq!(h.allocate(300), Some(Block { class: SizeClass::Large, index: 0 }));
    assert_eq!(h.allocate(2000), Some(Block { class: SizeClass::Page, index: 0 }));
    assert_eq!(h.allocate(8193), None);
}

#[test]
fn heap_free_undoes_allocate() {
    let mut h = Heap::new();
    let a = h.allocate(4).unwrap();
    let b = h.allocate(4).unwrap();
    assert_eq!(b.index, 1);
    h.free(a);
    assert_eq!(h.allocate(4), Some(a));
}

#[test]
fn heap_moves_to_larger_class_when_full() {
    let mut h = Heap::new();
    for _ in 0..8 {
        assert!(h.allocate(5000).is_some());
    }
    assert_eq!(h.allocate(5000), None);
    for i in 0..64 {
        assert_eq!(h.allocate(1000), Some(Block { class: SizeClass::Large, index: i }));
    }
    assert_eq!(h.allocate(1000), None);
}

#[test]
fn owned_buffers() {
    let mut h = Heap::new();
    let p = malloc(&mut h, 7u8);
    assert_eq!(p.as_slice(), &[7]);
    assert!(!p.is_null());
    let q = calloc(&mut h, &3u16, 4);
    assert_eq!(q.len(), 4);
    assert_eq!(q.as_slice(), &[3, 3, 3, 3]);
    let n: Ptr<u8> = Ptr::null();
    assert!(n.is_null());
    assert_eq!(n.len(), 0);
    assert!(Ptr::<u8>::null_slice().is_empty());
    let r = realloc(&mut h, &[1, 2, 3], 5);
    assert_eq!(r.len(), 5);
    assert_eq!(r.as_slice(), &[1, 2, 3, 1, 1]);
    let mut s = Ptr::from_slice(&mut h, &[4, 5]);
    s.set(1, 9);
    assert_eq!(s.as_slice(), &[4, 9]);
    assert_eq!(Ptr::from_ref(&mut h, &1u8).as_slice(), &[1]);
    assert_eq!(Ptr::new_slice(&mut h, 2u8, 3).as_slice(), &[2, 2, 2]);
    assert_eq!(h.allocate(1), Some(Block { class: SizeClass::Small, index: 6 }));
}

#[test]
fn buffers_come_from_the_heap() {
    let mut h = Heap::new();
    let big = calloc(&mut h, &0u64, 2000);
    assert!(big.is_null());
    assert_eq!(big.len(), 0);
    let page = calloc(&mut h, &0u64, 1000);
    assert_eq!(page.len(), 1000);
    assert_eq!(h.allocate(1025), Some(Block { class: SizeClass::Page, index: 1 }));
    let mut full = Heap::new();
    for _ in 0..8 {
        assert!(full.allocate(5000).is_some());
    }
    assert!(calloc(&mut full, &1u8, 5000).is_null());
    assert!(malloc_shared(&mut full, 1u8).as_slice() == &[1]);
    assert!(realloc_shared(&mut full, &[1u8], 5000).is_null());
    assert!(CharPtr::new(&mut full, "abc").as_str() == "abc");
}

#[test]
fn released_blocks_are_taken_again() {
    let mut h = Heap::new();
    let p = malloc(&mut h, 1u32);
    let q = malloc(&mut h, 2u32);
    assert_eq!(h.allocate(1), Some(Block { class: SizeClass::Small, index: 2 }));
    p.release(&mut h);
    assert_eq!(h.allocate(1), Some(Block { class: SizeClass::Small, index: 0 }));
    q.release(&mut h);
    let s = malloc_shared(&mut h, 5u8);
    let t = s.share();
    s.release(&mut h);
    assert_eq!(t.as_slice(), &[5]);
    t.release(&mut h);
    assert_eq!(h.allocate(1), Some(Block { class: SizeClass::Small, index: 1 }));
    assert_eq!(h.allocate(1), Some(Block { class: SizeClass::Small, index: 3 }));
}

#[test]
fn shared_buffers() {
    let mut h = Heap::new();
    let p = malloc_shared(&mut h, 5u32);
    let q = p.share();
    assert_eq!(q.as_slice(), &[5]);
    let c = calloc_shared(&mut h, &1u8, 3);
    assert_eq!(c.len(), 3);
    let e: SharedPtr<u8> = SharedPtr::from_slice(&mut h, &[]);
    assert!(e.is_null());
    assert!(SharedPtr::<u8>::null().is_null());
    assert!(SharedPtr::<u8>::null_slice().is_empty());
    assert_eq!(SharedPtr::new_slice(&mut h, 0u8, 2).as_slice(), &[0, 0]);
    assert_eq!(SharedPtr::new(&mut h, 3u8).as_slice(), &[3]);
}

#[test]
fn char_buffers() {
    let mut h = Heap::new();
    let c = CharPtr::new(&mut h, "abc");
    assert!(!c.is_null());
    assert_eq!(c.as_str(), "abc");
    assert!(CharPtr::new(&mut h, "").is_null());
    assert_eq!(CharPtr::null().as_str(), "");
    assert_eq!(h.allocate(1), Some(Block { class: SizeClass::Small, index: 1 }));
}

#[test]
fn realloc_shared_keeps_values_and_fills_up() {
    let mut h = Heap::new();
    let r = realloc_shared(&mut h, &[3u8, 4], 4);
    assert_eq!(r.as_slice(), &[3, 4, 3, 3]);
    assert!(realloc_shared::<u8>(&mut h, &[], 3).is_null());
    let same = realloc_shared(&mut h, &[1u32, 2, 3], 3);
    assert_eq!(same.len(), 3);
}

#[test]
fn slice_changes_in_place() {
    let mut h = Heap::new();
    let mut p = calloc(&mut h, &0u16, 3);
    p.as_slice_mut()[1] = 7;
    assert_eq!(p.as_slice(), &[0, 7, 0]);
}
