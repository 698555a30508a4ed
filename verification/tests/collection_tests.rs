use rtils::array_list::{ArrayList, StaticList};
use rtils::id_alloc::{map_copy, map_get, map_remove, map_store, map_store_high_priority, IdAllocator, IdAllocatorInternal};
use rtils::ids::{ArachneId, RequestId};
use rtils::immutable::Immutable;
use std::collections::BTreeMap;

#[test]
fn static_list_refuses_past_capacity() {
    let mut l: StaticList<u32, 2> = StaticList::new();
    assert!(l.try_push(1).is_ok());
    assert!(l.try_push(2).is_ok());
    assert_eq!(l.try_push(3), Err(3));
    assert_eq!(l.len(), 2);
    assert_eq!(l.try_pop(), Some(2));
    assert_eq!(l.try_insert(0, 9), Ok(()));
    assert_eq!(l.as_slice(), &[9, 1]);
    assert_eq!(l.try_remove(5), None);
    assert_eq!(l.try_remove(0), Some(9));
}

#[test]
fn array_list_spans_many_chunks() {
    let mut l: ArrayList<usize> = ArrayList::new();
    for i in 0..100 {
        l.push(i);
    }
    assert_eq!(l.len(), 100);
    for i in 0..100 {
        assert_eq!(l.get(i), Some(&i));
    }
    assert_eq!(l.get(100), None);
    let mut it = l.iter();
    let mut seen = Vec::new();
    while let Some(x) = it.next() {
        seen.push(*x);
    }
    assert_eq!(seen, (0..100).collect::<Vec<_>>());
}

#[test]
fn array_list_remove_undoes_insert() {
    let mut l: ArrayList<u32> = ArrayList::new();
    for i in 0..40 {
        l.push(i);
    }
    l.insert(33, 1000);
    assert_eq!(l.get(33), Some(&1000));
    assert_eq!(l.get(34), Some(&33));
    assert_eq!(l.len(), 41);
    assert_eq!(l.remove(33), Some(1000));
    assert_eq!(l.len(), 40);
    for i in 0..40u32 {
        assert_eq!(l.get(i as usize), Some(&i));
    }
    assert_eq!(l.remove(40), None);
}

#[test]
fn array_list_insert_past_end_appends() {
    let mut l: ArrayList<u32> = ArrayList::new();
    l.push(1);
    l.insert(10, 2);
    assert_eq!(l.get(1), Some(&2));
    assert_eq!(l.len(), 2);
}

#[test]
fn array_list_get_mut_and_collect() {
    let mut l: ArrayList<u32> = ArrayList::new();
    for i in 0..70 {
        l.push(i);
    }
    if let Some(x) = l.get_mut(65) {
        *x = 7;
    }
    assert_eq!(l.get(65), Some(&7));
    for _ in 0..32 {
        l.remove(0);
    }
    l.collect();
    assert_eq!(l.len(), 38);
    assert_eq!(l.get(0), Some(&32));
    l.clear();
    assert!(l.is_empty());
    let mut it = {
        let mut m: ArrayList<u8> = ArrayList::new();
        m.push(4);
        m.push(5);
        m.into_iter()
    };
    assert_eq!(it.next(), Some(4));
    assert_eq!(it.next(), Some(5));
    assert_eq!(it.next(), None);
}

#[test]
fn id_allocator_hands_out_least_free() {
    let mut a = IdAllocator::new();
    assert_eq!(a.allocate(), 2048);
    assert_eq!(a.allocate(), 2049);
    assert_eq!(a.alloc_high_priority(), 1);
    assert_eq!(a.alloc_high_priority(), 2);
    a.free(2048);
    assert_eq!(a.allocate(), 2048);
    assert_eq!(a.allocate(), 2050);
}

#[test]
fn id_allocator_internal_reuses_freed() {
    let mut a = IdAllocatorInternal::new();
    let x = a.allocate();
    let y = a.allocate();
    assert!(x < y);
    a.free(x);
    assert_eq!(a.allocate(), x);
}

#[test]
fn map_store_and_get() {
    let mut m: BTreeMap<u64, &str> = BTreeMap::new();
    let a: RequestId = map_store(&mut m, "a");
    let b: RequestId = map_store(&mut m, "b");
    assert_eq!(a.get(), 4096);
    assert_eq!(b.get(), 4097);
    let h: RequestId = map_store_high_priority(&mut m, "h");
    assert_eq!(h.get(), 1);
    assert_eq!(map_get(&m, a), Some(&"a"));
    assert_eq!(map_copy(&m, b), Some("b"));
    assert_eq!(map_remove(&mut m, a), Some("a"));
    assert_eq!(map_get(&m, a), None);
    assert_eq!(map_remove(&mut m, a), None);
    let c: RequestId = map_store(&mut m, "c");
    assert_eq!(c.get(), 4096);
}

#[test]
fn immutable_keeps_value() {
    let x = Immutable::new(5);
    assert_eq!(*x.get(), 5);
    assert_eq!(x.take(), 5);
}

#[test]
fn sorts_put_items_in_order_and_count_them_again() {
    let mut l: ArrayList<u32> = ArrayList::new();
    for x in [5u32, 3, 9, 1, 3, 40, 2] {
        l.push(x);
    }
    l.sort_unstable();
    let mut it = l.iter();
    let mut seen = Vec::new();
    while let Some(x) = it.next() {
        seen.push(*x);
    }
    assert_eq!(seen, vec![1, 2, 3, 3, 5, 9, 40]);
    assert_eq!(l.len(), 14);
    let mut d: ArrayList<i64> = ArrayList::new();
    for x in [3i64, -1, 2] {
        d.push(x);
    }
    d.sort_default();
    assert_eq!((d.get(0), d.get(1), d.get(2)), (Some(&-1), Some(&2), Some(&3)));
    let mut b: ArrayList<u32> = ArrayList::new();
    for x in 0..40u32 {
        b.push(x);
    }
    b.sort_unstable_by(|x, y| y.cmp(x));
    assert_eq!(b.get(0), Some(&39));
    assert_eq!(b.get(39), Some(&0));
    assert_eq!(b.len(), 80);
}

#[test]
fn static_list_cursors() {
    let mut l: StaticList<u8, 4> = StaticList::new();
    for x in [1u8, 2, 3] {
        l.try_push(x).unwrap();
    }
    let mut r = l.iter();
    assert_eq!(r.next(), Some(&1));
    assert_eq!(r.next(), Some(&2));
    assert_eq!(r.next(), Some(&3));
    assert_eq!(r.next(), None);
    let mut o = l.into_iter();
    assert_eq!(o.next(), Some(1));
    assert_eq!(o.next(), Some(2));
    assert_eq!(o.next(), Some(3));
    assert_eq!(o.next(), None);
}

#[test]
fn map_get_mut_changes_value() {
    let mut m: BTreeMap<u64, u32> = BTreeMap::new();
    let a: RequestId = map_store(&mut m, 1);
    if let Some(v) = rtils::id_alloc::map_get_mut(&mut m, a) {
        *v = 5;
    }
    assert_eq!(map_get(&m, a), Some(&5));
    assert!(rtils::id_alloc::map_get_mut(&mut m, RequestId::invalid()).is_none());
}
