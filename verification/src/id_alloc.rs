//! Handing out unused integer identifiers, and storing values under them.
use vstd::prelude::*;
use std::collections::{BTreeMap, BTreeSet};
use crate::ids::ArachneId;

verus! {

broadcast use {vstd::std_specs::btree::group_btree_axioms, vstd::laws_cmp::group_laws_cmp};

/// The least integer from `low` on that `used` leaves free.
pub open spec fn least_free_from(used: Set<u64>, low: u64, r: u64) -> bool {
    &&& low <= r
    &&& !used.contains(r)
    &&& forall|j: u64| low <= j < r ==> used.contains(j)
}

/// Whether `used` leaves an integer free from `low` on, below `u64::MAX`.
pub open spec fn has_free_from(used: Set<u64>, low: u64) -> bool {
    exists|j: u64| low <= j < u64::MAX && !used.contains(j)
}

/// The set of identifiers in use.
pub struct IdAllocatorInternal {
    general_ids: BTreeSet<u64>,
}

impl View for IdAllocatorInternal {
    type V = Set<u64>;

    closed spec fn view(&self) -> Set<u64> {
        self.general_ids@
    }
}

impl IdAllocatorInternal {
    /// No identifier in use.
    pub fn new() -> (r: Self)
        ensures
            r@ == Set::<u64>::empty(),
    {
        IdAllocatorInternal { general_ids: BTreeSet::new() }
    }

    /// Marks the least unused identifier from `low` on as used and returns it.
    fn take_from(&mut self, low: u64) -> (r: u64)
        requires
            has_free_from(old(self)@, low),
        ensures
            least_free_from(old(self)@, low, r),
            r < u64::MAX,
            final(self)@ == old(self)@.insert(r),
    {
        let mut i: u64 = low;
        loop
            invariant
                low <= i,
                self@ == old(self)@,
                has_free_from(self@, low),
                forall|j: u64| low <= j < i ==> self@.contains(j),
            decreases u64::MAX - i,
        {
            if !self.general_ids.contains(&i) {
                proof {
                    if i == u64::MAX {
                        let j = choose|j: u64| low <= j < u64::MAX && !self@.contains(j);
                        assert(self@.contains(j));
                    }
                }
                self.general_ids.insert(i);
                return i;
            }
            proof {
                if i == u64::MAX {
                    let j = choose|j: u64| low <= j < u64::MAX && !self@.contains(j);
                    assert(self@.contains(j));
                }
            }
            i += 1;
        }
    }

    /// Marks the least unused identifier from 2048 on as used and returns it.
    /// The identifiers from 2048 up to `u64::MAX` must not all be in use.
    pub fn allocate(&mut self) -> (r: u64)
        requires
            has_free_from(old(self)@, 2048),
        ensures
            least_free_from(old(self)@, 2048, r),
            r < u64::MAX,
            final(self)@ == old(self)@.insert(r),
    {
        self.take_from(2048)
    }

    /// Marks the least unused identifier from 1 on as used and returns it.
    /// The identifiers from 1 up to `u64::MAX` must not all be in use.
    pub fn alloc_high_priority(&mut self) -> (r: u64)
        requires
            has_free_from(old(self)@, 1),
        ensures
            least_free_from(old(self)@, 1, r),
            r < u64::MAX,
            final(self)@ == old(self)@.insert(r),
    {
        self.take_from(1)
    }

    /// Marks `id` unused.
    pub fn free(&mut self, id: u64)
        ensures
            final(self)@ == old(self)@.remove(id),
    {
        self.general_ids.remove(&id);
    }
}

/// The identifier allocator that the event system shares between its parts.
pub struct IdAllocator {
    al: IdAllocatorInternal,
}

impl View for IdAllocator {
    type V = Set<u64>;

    closed spec fn view(&self) -> Set<u64> {
        self.al@
    }
}

impl IdAllocator {
    /// No identifier in use.
    pub fn new() -> (r: Self)
        ensures
            r@ == Set::<u64>::empty(),
    {
        IdAllocator { al: IdAllocatorInternal::new() }
    }

    /// Marks the least unused identifier from 2048 on as used and returns it.
    pub fn allocate(&mut self) -> (r: u64)
        requires
            has_free_from(old(self)@, 2048),
        ensures
            least_free_from(old(self)@, 2048, r),
            r < u64::MAX,
            final(self)@ == old(self)@.insert(r),
    {
        self.al.allocate()
    }

    /// Marks the least unused identifier from 1 on as used and returns it.
    pub fn alloc_high_priority(&mut self) -> (r: u64)
        requires
            has_free_from(old(self)@, 1),
        ensures
            least_free_from(old(self)@, 1, r),
            r < u64::MAX,
            final(self)@ == old(self)@.insert(r),
    {
        self.al.alloc_high_priority()
    }

    /// Marks `id` unused.
    pub fn free(&mut self, id: u64)
        ensures
            final(self)@ == old(self)@.remove(id),
    {
        self.al.free(id)
    }
}

/// Stores `value` under the least free key from `low` on and returns the key.
fn store_from<T: ArachneId, U>(map: &mut BTreeMap<u64, U>, value: U, low: u64) -> (r: T)
    requires
        has_free_from(old(map)@.dom(), low),
    ensures
        least_free_from(old(map)@.dom(), low, r.id_value()),
        final(map)@ == old(map)@.insert(r.id_value(), value),
{
    let mut i: u64 = low;
    loop
        invariant
            low <= i,
            map@ == old(map)@,
            has_free_from(map@.dom(), low),
            forall|j: u64| low <= j < i ==> map@.dom().contains(j),
        decreases u64::MAX - i,
    {
        proof {
            if i == u64::MAX {
                let j = choose|j: u64| low <= j < u64::MAX && !map@.dom().contains(j);
                assert(map@.dom().contains(j));
            }
        }
        let id = T::create(i);
        if !map.contains_key(&id.get()) {
            map.insert(id.get(), value);
            return id;
        }
        i += 1;
    }
}

/// Stores `value` under the least free key from 4096 on and returns that key.
/// The keys from 4096 up to `u64::MAX` must not all be taken.
pub fn map_store<T: ArachneId, U>(map: &mut BTreeMap<u64, U>, value: U) -> (r: T)
    requires
        has_free_from(old(map)@.dom(), 4096),
    ensures
        least_free_from(old(map)@.dom(), 4096, r.id_value()),
        final(map)@ == old(map)@.insert(r.id_value(), value),
{
    store_from(map, value, 4096)
}

/// Stores `value` under the least free key from 1 on and returns that key.
/// The keys from 1 up to `u64::MAX` must not all be taken.
pub fn map_store_high_priority<T: ArachneId, U>(map: &mut BTreeMap<u64, U>, value: U) -> (r: T)
    requires
        has_free_from(old(map)@.dom(), 1),
    ensures
        least_free_from(old(map)@.dom(), 1, r.id_value()),
        final(map)@ == old(map)@.insert(r.id_value(), value),
{
    store_from(map, value, 1)
}

/// Removes and returns the value stored under `id`.
pub fn map_remove<T: ArachneId, U>(map: &mut BTreeMap<u64, U>, id: T) -> (r: Option<U>)
    ensures
        final(map)@ == old(map)@.remove(id.id_value()),
        old(map)@.contains_key(id.id_value()) ==> r == Some(old(map)@[id.id_value()]),
        !old(map)@.contains_key(id.id_value()) ==> r is None,
{
    map.remove(&id.get())
}

/// The value stored under `id`.
pub fn map_get<'a, T: ArachneId, U>(map: &'a BTreeMap<u64, U>, id: T) -> (r: Option<&'a U>)
    ensures
        map@.contains_key(id.id_value()) ==> r == Some(&map@[id.id_value()]),
        !map@.contains_key(id.id_value()) ==> r is None,
{
    map.get(&id.get())
}

/// A clone of the value stored under `id`.
pub fn map_copy<T: ArachneId, U: Clone>(map: &BTreeMap<u64, U>, id: T) -> (r: Option<U>)
    ensures
        map@.contains_key(id.id_value()) ==> (r matches Some(v) && cloned(map@[id.id_value()], v)),
        !map@.contains_key(id.id_value()) ==> r is None,
{
    match map.get(&id.get()) {
        Some(v) => Some(v.clone()),
        None => None,
    }
}

/// `BTreeMap::get_mut`: the value stored under `k`, to be changed in place,
/// where there is one; the map is left as it was otherwise. The contract
/// claims that a change made through the reference is the only change to
/// the map.
#[verifier::external_body]
pub(crate) fn btree_get_mut<'a, U>(map: &'a mut BTreeMap<u64, U>, k: u64) -> (r: Option<&'a mut U>)
    ensures
        old(map)@.contains_key(k) ==> r is Some && *r->0 == old(map)@[k] && final(map)@ == old(
            map,
        )@.insert(k, *final(r->0)),
        !old(map)@.contains_key(k) ==> r is None && final(map)@ == old(map)@,
{
    map.get_mut(&k)
}

/// The value stored under `id`, to be changed in place, where there is one.
pub fn map_get_mut<'a, T: ArachneId, U>(map: &'a mut BTreeMap<u64, U>, id: T) -> (r: Option<&'a mut U>)
    ensures
        old(map)@.contains_key(id.id_value()) ==> r is Some && *r->0 == old(map)@[id.id_value()]
            && final(map)@ == old(map)@.insert(id.id_value(), *final(r->0)),
        !old(map)@.contains_key(id.id_value()) ==> r is None && final(map)@ == old(map)@,
{
    btree_get_mut(map, id.get())
}

/// A range keeps a free identifier while fewer identifiers are in use than
/// the range holds.
pub proof fn lemma_free_id_exists(used: Set<u64>, low: u64)
    requires
        used.finite(),
        used.len() < u64::MAX - low,
    ensures
        has_free_from(used, low),
{
    let range = Set::<u64>::new(|j: u64| low <= j < u64::MAX);
    <u64 as vstd::set_lib::FiniteRange>::range_properties(low, u64::MAX);
    assert(range == <u64 as vstd::set_lib::FiniteRange>::range_set(low, u64::MAX));
    if !has_free_from(used, low) {
        assert(range.subset_of(used));
        vstd::set_lib::lemma_len_subset(range, used);
    }
}

/// Two identifiers handed out one after the other, with no free between
/// them, differ: the second is larger than the first.
pub proof fn law_allocated_ids_differ(used: Set<u64>, low: u64, first: u64, second: u64)
    requires
        least_free_from(used, low, first),
        least_free_from(used.insert(first), low, second),
    ensures
        first < second,
{
    if second <= first {
        assert(used.insert(first).contains(second));
    }
}

/// Freeing an identifier of the range makes it available again: the next
/// identifier handed out from the range is that one or a smaller one.
pub proof fn law_freed_id_is_reused(used: Set<u64>, low: u64, id: u64, next: u64)
    requires
        low <= id,
        least_free_from(used.remove(id), low, next),
    ensures
        next <= id,
{
    if next > id {
        assert(used.remove(id).contains(id));
    }
}

/// Freeing an identifier right after it was handed out leaves the
/// identifiers in use as they were.
pub proof fn law_free_undoes_allocate(used: Set<u64>, low: u64, id: u64)
    requires
        least_free_from(used, low, id),
    ensures
        used.insert(id).remove(id) == used,
{
    assert(used.insert(id).remove(id) =~= used);
}

} // verus!
