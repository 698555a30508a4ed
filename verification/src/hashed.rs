//! A hash map and a hash set keyed by integers. Each key lives in the bin
//! that its hash picks; a bin lists its entries newest first; and the table
//! doubles its bins when it holds more than one and a half entries per bin.
use vstd::prelude::*;
use vstd::std_specs::hash::DefaultHasherAdditionalSpecFns;
use std::collections::hash_map::DefaultHasher;
use std::hash::Hasher;
use crate::wire::{le_bytes, length_header};

verus! {

/// The hash that std's `DefaultHasher`, made by `new`, gives after the
/// little-endian bytes of key `k` are written to it.
#[verifier::opaque]
pub open spec fn default_hash(k: u64) -> u64 {
    DefaultHasher::spec_finish(seq![le_bytes(k as nat, 8)])
}

/// Hashes the little-endian bytes of `k` with a `DefaultHasher` made by
/// `new`; on a little-endian machine that is the hash of `k` itself.
fn hash_key(k: u64) -> (r: u64)
    ensures
        r == default_hash(k),
{
    let bytes = length_header(k);
    let mut hs = DefaultHasher::new();
    hs.write(bytes.as_slice());
    proof {
        reveal(default_hash);
    }
    hs.finish()
}

/// The bin of `k` in a table of `n` bins.
pub open spec fn slot_of(k: u64, n: int) -> int {
    ((default_hash(k) as usize) as int) % n
}

/// The bin of `k` in a table of `n` bins.
fn slot(k: u64, n: usize) -> (r: usize)
    requires
        n > 0,
    ensures
        r == slot_of(k, n as int),
{
    (hash_key(k) as usize) % n
}

/// The number of entries in `bins`.
pub open spec fn total<V>(bins: Seq<Vec<(u64, V)>>) -> nat
    decreases bins.len(),
{
    if bins.len() == 0 {
        0
    } else {
        total(bins.drop_last()) + bins.last()@.len()
    }
}

/// Replacing one bin changes the number of entries by the difference of
/// the two bins' sizes.
proof fn lemma_total_update<V>(bins: Seq<Vec<(u64, V)>>, i: int, b: Vec<(u64, V)>)
    requires
        0 <= i < bins.len(),
    ensures
        total(bins.update(i, b)) == total(bins) - bins[i]@.len() + b@.len(),
    decreases bins.len(),
{
    if i == bins.len() - 1 {
        assert(bins.update(i, b).drop_last() =~= bins.drop_last());
    } else {
        lemma_total_update(bins.drop_last(), i, b);
        assert(bins.update(i, b).drop_last() =~= bins.drop_last().update(i, b));
    }
}

/// The bins before position `i` hold no more entries than all bins, and
/// one bin more adds its size.
proof fn lemma_total_prefix<V>(bins: Seq<Vec<(u64, V)>>, i: int)
    requires
        0 <= i <= bins.len(),
    ensures
        total(bins.take(i)) <= total(bins),
        i < bins.len() ==> total(bins.take(i + 1)) == total(bins.take(i)) + bins[i]@.len(),
    decreases bins.len(),
{
    if i < bins.len() {
        assert(bins.take(i + 1).drop_last() =~= bins.take(i));
    }
    if i == bins.len() {
        assert(bins.take(i) =~= bins);
    } else {
        lemma_total_prefix(bins.drop_last(), i);
        if i == bins.len() - 1 {
            assert(bins.take(i) =~= bins.drop_last());
        } else {
            assert(bins.drop_last().take(i) =~= bins.take(i));
            assert(bins.drop_last().take(i + 1) =~= bins.take(i + 1));
        }
    }
}

/// The position of key `k` in `bin`, where it is there.
fn find_in<V>(bin: &Vec<(u64, V)>, k: u64) -> (r: Option<usize>)
    ensures
        r matches Some(j) ==> j < bin@.len() && bin@[j as int].0 == k,
        r is None ==> forall|j: int| 0 <= j < bin@.len() ==> bin@[j].0 != k,
{
    let mut j: usize = 0;
    while j < bin.len()
        invariant
            j <= bin@.len(),
            forall|x: int| 0 <= x < j ==> bin@[x].0 != k,
        decreases bin@.len() - j,
    {
        if bin[j].0 == k {
            return Some(j);
        }
        j += 1;
    }
    None
}

/// A hash map from integer keys to values.
pub struct HashedMap<V> {
    table: Vec<Vec<(u64, V)>>,
    count: usize,
}

impl<V> HashedMap<V> {
    /// The number of bins.
    pub closed spec fn bins(&self) -> nat {
        self.table@.len()
    }

    /// The number of entries.
    pub closed spec fn size(&self) -> nat {
        self.count as nat
    }

    /// The entries of the bin of `k`.
    closed spec fn bin(&self, k: u64) -> Seq<(u64, V)> {
        self.table@[slot_of(k, self.table@.len() as int)]@
    }

    /// Whether `k` is the newest entry of its bin.
    pub closed spec fn at_front(&self, k: u64) -> bool {
        self.bin(k).len() > 0 && self.bin(k)[0].0 == k
    }

    /// There is a bin; each entry lies in the bin of its key; no key is in
    /// a bin twice; and the count is the number of entries.
    pub closed spec fn wf(&self) -> bool {
        &&& self.table@.len() > 0
        &&& self.count == total(self.table@)
        &&& forall|i: int, j: int|
            0 <= i < self.table@.len() && 0 <= j < self.table@[i]@.len() ==> slot_of(
                (#[trigger] self.table@[i]@[j]).0,
                self.table@.len() as int,
            ) == i
        &&& forall|i: int, a: int, b: int|
            0 <= i < self.table@.len() && 0 <= a < b < self.table@[i]@.len() ==> (
            #[trigger] self.table@[i]@[a]).0 != (#[trigger] self.table@[i]@[b]).0
    }
}

impl<V> View for HashedMap<V> {
    type V = Map<u64, V>;

    closed spec fn view(&self) -> Map<u64, V> {
        Map::new(
            |k: u64| exists|j: int| 0 <= j < self.bin(k).len() && self.bin(k)[j].0 == k,
            |k: u64|
                self.bin(k)[choose|j: int| 0 <= j < self.bin(k).len() && self.bin(k)[j].0 == k].1,
        )
    }
}

/// The bin at `b`, to be changed in place.
fn bin_mut<V>(table: &mut Vec<Vec<(u64, V)>>, b: usize) -> (r: &mut Vec<(u64, V)>)
    requires
        b < old(table)@.len(),
    ensures
        *r == old(table)@[b as int],
        final(table)@ == old(table)@.update(b as int, *final(r)),
{
    &mut table[b]
}

/// The value of the entry at `j`, to be changed in place.
fn value_mut<V>(bin: &mut Vec<(u64, V)>, j: usize) -> (r: &mut V)
    requires
        j < old(bin)@.len(),
    ensures
        *r == old(bin)@[j as int].1,
        final(bin)@ == old(bin)@.update(j as int, (old(bin)@[j as int].0, *final(r))),
{
    &mut bin[j].1
}

/// Whether `next` is `m` with value `v` in the place of the entry of `k`,
/// at `j` in its bin.
spec fn value_changed<V>(m: HashedMap<V>, next: HashedMap<V>, k: u64, j: int, v: V) -> bool {
    &&& next.count == m.count
    &&& next.table@ == m.table@.update(slot_of(k, m.table@.len() as int), next.table@[slot_of(k, m.table@.len() as int)])
    &&& next.table@[slot_of(k, m.table@.len() as int)]@ == m.bin(k).update(j, (k, v))
}

/// Putting a value in the place of the entry of `k`, at `j` in its bin,
/// keeps the map well formed and changes only what `k` maps to.
proof fn lemma_value_changed<V>(m: HashedMap<V>, k: u64, j: int)
    requires
        m.wf(),
        0 <= j < m.bin(k).len(),
        m.bin(k)[j].0 == k,
    ensures
        forall|next: HashedMap<V>, v: V|
            #![trigger next.wf(), m@.insert(k, v)]
            #![trigger next@, m@.insert(k, v)]
            value_changed(m, next, k, j, v) ==> next.wf() && next@ == m@.insert(k, v) && next.table@.len()
                == m.table@.len(),
{
    assert forall|next: HashedMap<V>, v: V| value_changed(m, next, k, j, v) implies next.wf() && next@ == m@.insert(k, v) && next.table@.len() == m.table@.len() by {
        lemma_value_changed_one(m, next, k, j, v);
    }
}

proof fn lemma_value_changed_one<V>(m: HashedMap<V>, next: HashedMap<V>, k: u64, j: int, v: V)
    requires
        m.wf(),
        0 <= j < m.bin(k).len(),
        m.bin(k)[j].0 == k,
        value_changed(m, next, k, j, v),
    ensures
        next.wf(),
        next@ == m@.insert(k, v),
        next.table@.len() == m.table@.len(),
{
    let n = m.table@.len() as int;
    let b = slot_of(k, n);
    let t0 = m.table@;
    let t = next.table@;
    assert(t =~= t0.update(b, t[b]));
    lemma_total_update(t0, b, t[b]);
    assert forall|i: int, x: int| 0 <= i < n && 0 <= x < t[i]@.len() implies slot_of((#[trigger] t[i]@[x]).0, n) == i by {
        assert(t[i]@[x].0 == t0[i]@[x].0);
    }
    assert forall|i: int, a: int, c: int| 0 <= i < n && 0 <= a < c < t[i]@.len() implies (#[trigger] t[i]@[a]).0 != (#[trigger] t[i]@[c]).0 by {
        assert(t[i]@[a].0 == t0[i]@[a].0);
        assert(t[i]@[c].0 == t0[i]@[c].0);
    }
    assert(next.wf());
    m.lemma_entry(k, j);
    assert forall|k2: u64| #[trigger] next@.contains_key(k2) == m@.insert(k, v).contains_key(k2) by {
        if next@.contains_key(k2) {
            let x = choose|x: int| 0 <= x < next.bin(k2).len() && next.bin(k2)[x].0 == k2;
            assert(m.bin(k2)[x].0 == k2);
        }
        if m@.contains_key(k2) {
            let x = choose|x: int| 0 <= x < m.bin(k2).len() && m.bin(k2)[x].0 == k2;
            assert(next.bin(k2)[x].0 == k2);
        }
        if k2 == k {
            assert(next.bin(k)[j].0 == k);
        }
    }
    assert forall|k2: u64| #[trigger] next@.contains_key(k2) implies next@[k2] == m@.insert(k, v)[k2] by {
        let x = choose|x: int| 0 <= x < next.bin(k2).len() && next.bin(k2)[x].0 == k2;
        next.lemma_entry(k2, x);
        if k2 == k {
            next.lemma_entry(k, j);
        } else {
            assert(m.bin(k2)[x].0 == k2);
            m.lemma_entry(k2, x);
            if slot_of(k2, n) == b {
                assert(x != j);
            }
        }
    }
    assert(next@ =~= m@.insert(k, v));
}

impl<V> HashedMap<V> {
    /// An entry of the bin of `k` with key `k` is the entry of `k`.
    proof fn lemma_entry(&self, k: u64, j: int)
        requires
            self.wf(),
            0 <= j < self.bin(k).len(),
            self.bin(k)[j].0 == k,
        ensures
            self@.contains_key(k),
            self@[k] == self.bin(k)[j].1,
    {
        let n = self.table@.len() as int;
        let s = slot_of(k, n);
        assert(0 <= s < n);
        let w = choose|x: int| 0 <= x < self.bin(k).len() && self.bin(k)[x].0 == k;
        if w != j {
            if w < j {
                assert(self.table@[s]@[w].0 != self.table@[s]@[j].0);
            } else {
                assert(self.table@[s]@[j].0 != self.table@[s]@[w].0);
            }
        }
    }

    /// A key that the bin of `k` does not hold is not in the map.
    proof fn lemma_absent(&self, k: u64)
        requires
            self.wf(),
            forall|j: int| 0 <= j < self.bin(k).len() ==> self.bin(k)[j].0 != k,
        ensures
            !self@.contains_key(k),
    {
    }

    /// A map of `capacity + 1` empty bins.
    pub fn with_capacity(capacity: usize) -> (r: Self)
        requires
            capacity < usize::MAX,
        ensures
            r.wf(),
            r@ == Map::<u64, V>::empty(),
            r.bins() == capacity + 1,
            r.size() == 0,
    {
        let mut table: Vec<Vec<(u64, V)>> = Vec::new();
        let mut i: usize = 0;
        while i <= capacity
            invariant
                i <= capacity + 1,
                capacity < usize::MAX,
                table@.len() == i,
                forall|x: int| 0 <= x < i ==> (#[trigger] table@[x])@.len() == 0,
                total(table@) == 0,
            decreases capacity + 1 - i,
        {
            let ghost before = table@;
            table.push(Vec::new());
            assert(table@.drop_last() =~= before);
            i += 1;
        }
        let r = HashedMap { table, count: 0 };
        assert(r@ =~= Map::<u64, V>::empty());
        r
    }

    /// A map of 65 empty bins.
    pub fn new() -> (r: Self)
        ensures
            r.wf(),
            r@ == Map::<u64, V>::empty(),
            r.bins() == 65,
            r.size() == 0,
    {
        Self::with_capacity(64)
    }

    /// The value of `key`, where it is in the map.
    pub fn get(&self, key: &u64) -> (r: Option<&V>)
        requires
            self.wf(),
        ensures
            self@.contains_key(*key) ==> r == Some(&self@[*key]),
            !self@.contains_key(*key) ==> r is None,
    {
        let b = slot(*key, self.table.len());
        let bin = &self.table[b];
        match find_in(bin, *key) {
            Some(j) => {
                proof {
                    self.lemma_entry(*key, j as int);
                }
                Some(&bin[j].1)
            },
            None => None,
        }
    }

    /// Whether `key` is in the map.
    pub fn contains(&self, key: &u64) -> (r: bool)
        requires
            self.wf(),
        ensures
            r == self@.contains_key(*key),
    {
        self.get(key).is_some()
    }

    /// Puts `value` under `key` and hands back the value it replaces, where
    /// there was one. A new key goes in front of its bin; before it goes in,
    /// a table with more than one and a half entries per bin is rebuilt with
    /// twice as many bins, as `resize` does, where the number of bins allows.
    pub fn insert(&mut self, key: u64, value: V) -> (r: Option<V>)
        requires
            old(self).wf(),
            old(self).size() < usize::MAX,
        ensures
            final(self).wf(),
            final(self)@ == old(self)@.insert(key, value),
            old(self)@.contains_key(key) ==> r == Some(old(self)@[key]) && final(self).size() == old(
                self,
            ).size(),
            !old(self)@.contains_key(key) ==> r is None && final(self).size() == old(self).size() + 1
                && final(self).at_front(key),
        decreases old(self).size(), 1nat,
    {
        let n = self.table.len();
        if 2 * (self.count as u128) > 3 * (n as u128) && n <= usize::MAX / 4 {
            self.resize(n * 2);
        }
        self.put(key, value)
    }

    /// Puts `value` under `key` without growing the table.
    fn put(&mut self, key: u64, value: V) -> (r: Option<V>)
        requires
            old(self).wf(),
            old(self).size() < usize::MAX,
        ensures
            final(self).wf(),
            final(self)@ == old(self)@.insert(key, value),
            final(self).bins() == old(self).bins(),
            old(self)@.contains_key(key) ==> r == Some(old(self)@[key]) && final(self).size() == old(
                self,
            ).size(),
            !old(self)@.contains_key(key) ==> r is None && final(self).size() == old(self).size() + 1
                && final(self).at_front(key),
    {
        let n = self.table.len();
        let b = slot(key, n);
        let ghost t0 = self.table@;
        let mut bin: Vec<(u64, V)> = Vec::new();
        std::mem::swap(&mut bin, &mut self.table[b]);
        let ghost old_bin = bin@;
        assert(old_bin == t0[b as int]@);
        let r = match find_in(&bin, key) {
            Some(j) => {
                proof {
                    old(self).lemma_entry(key, j as int);
                }
                let (_, old_value) = bin.remove(j);
                bin.insert(j, (key, value));
                Some(old_value)
            },
            None => {
                proof {
                    old(self).lemma_absent(key);
                }
                bin.insert(0, (key, value));
                None
            },
        };
        let ghost new_bin = bin@;
        std::mem::swap(&mut bin, &mut self.table[b]);
        proof {
            assert(self.table@ == t0.update(b as int, self.table@[b as int]));
            lemma_total_update(t0, b as int, self.table@[b as int]);
        }
        if r.is_none() {
            self.count = self.count + 1;
        }
        proof {
            let t = self.table@;
            assert forall|i: int, j: int|
                0 <= i < t.len() && 0 <= j < t[i]@.len() implies slot_of((#[trigger] t[i]@[j]).0, t.len() as int)
                == i by {
                if i == b {
                    if r is None {
                        if j > 0 {
                            assert(t[i]@[j] == old_bin[j - 1]);
                            assert(old_bin[j - 1] == t0[i]@[j - 1]);
                        }
                    } else {
                        if t[i]@[j].0 != key {
                            assert(t[i]@[j] == old_bin[j]);
                            assert(old_bin[j] == t0[i]@[j]);
                        }
                    }
                } else {
                    assert(t[i] == t0[i]);
                    assert(t0[i]@[j] == t[i]@[j]);
                }
            }
            assert forall|i: int, a: int, c: int|
                0 <= i < t.len() && 0 <= a < c < t[i]@.len() implies (#[trigger] t[i]@[a]).0 != (
                #[trigger] t[i]@[c]).0 by {
                if i == b {
                    if r is None {
                        if a == 0 {
                            assert(t[i]@[c] == old_bin[c - 1]);
                        } else {
                            assert(t[i]@[a] == old_bin[a - 1]);
                            assert(t[i]@[c] == old_bin[c - 1]);
                            assert(t0[i]@[a - 1] == old_bin[a - 1]);
                            assert(t0[i]@[c - 1] == old_bin[c - 1]);
                        }
                    } else {
                        let j = choose|j: int| 0 <= j < old_bin.len() && old_bin[j].0 == key;
                        assert(t0[i]@[j] == old_bin[j]);
                        assert(t0[i]@[a] == old_bin[a]);
                        assert(t0[i]@[c] == old_bin[c]);
                    }
                } else {
                    assert(t[i] == t0[i]);
                    assert(t0[i]@[a] == t[i]@[a]);
                    assert(t0[i]@[c] == t[i]@[c]);
                }
            }
            assert(self.wf());
            assert forall|k: u64| #[trigger] self@.contains_key(k) == old(self)@.insert(key, value).contains_key(k) by {
                if k == key {
                    if r is None {
                        assert(self.bin(k)[0].0 == k);
                    } else {
                        let j = choose|j: int| 0 <= j < old_bin.len() && old_bin[j].0 == key;
                        assert(self.bin(k)[j].0 == k);
                    }
                } else if slot_of(k, n as int) == b {
                    if self@.contains_key(k) {
                        let x = choose|x: int| 0 <= x < self.bin(k).len() && self.bin(k)[x].0 == k;
                        if r is None {
                            assert(old(self).bin(k)[x - 1].0 == k);
                        } else {
                            assert(old(self).bin(k)[x].0 == k);
                        }
                    }
                    if old(self)@.contains_key(k) {
                        let x = choose|x: int| 0 <= x < old(self).bin(k).len() && old(self).bin(k)[x].0 == k;
                        if r is None {
                            assert(self.bin(k)[x + 1].0 == k);
                        } else {
                            assert(self.bin(k)[x].0 == k);
                        }
                    }
                } else {
                    assert(self.bin(k) == old(self).bin(k));
                }
            }
            assert forall|k: u64| #[trigger] self@.contains_key(k) implies self@[k] == old(self)@.insert(key, value)[k] by {
                if k == key {
                    if r is None {
                        self.lemma_entry(k, 0);
                    } else {
                        let j = choose|j: int| 0 <= j < old_bin.len() && old_bin[j].0 == key;
                        self.lemma_entry(k, j);
                    }
                } else if slot_of(k, n as int) == b {
                    let x = choose|x: int| 0 <= x < self.bin(k).len() && self.bin(k)[x].0 == k;
                    self.lemma_entry(k, x);
                    if r is None {
                        old(self).lemma_entry(k, x - 1);
                    } else {
                        old(self).lemma_entry(k, x);
                    }
                } else {
                    assert(self.bin(k) == old(self).bin(k));
                    let x = choose|x: int| 0 <= x < self.bin(k).len() && self.bin(k)[x].0 == k;
                    self.lemma_entry(k, x);
                    old(self).lemma_entry(k, x);
                }
            }
            assert(self@ =~= old(self)@.insert(key, value));
        }
        r
    }

    /// The value of `key`, to be changed in place, where it is in the map.
    pub fn get_mut(&mut self, key: &u64) -> (r: Option<&mut V>)
        requires
            old(self).wf(),
        ensures
            old(self)@.contains_key(*key) ==> r is Some && *r->0 == old(self)@[*key] && final(self)@
                == old(self)@.insert(*key, *final(r->0)),
            !old(self)@.contains_key(*key) ==> r is None && final(self)@ == old(self)@,
            final(self).wf(),
            final(self).size() == old(self).size(),
            final(self).bins() == old(self).bins(),
    {
        let n = self.table.len();
        let b = slot(*key, n);
        match find_in(&self.table[b], *key) {
            Some(j) => {
                proof {
                    old(self).lemma_entry(*key, j as int);
                }
                proof {
                    lemma_value_changed(*old(self), *key, j as int);
                }
                let bin = bin_mut(&mut self.table, b);
                let v = value_mut(bin, j);
                Some(v)
            },
            None => {
                proof {
                    old(self).lemma_absent(*key);
                }
                None
            },
        }
    }

    /// Takes `key` out of the map and hands back its entry, where it was
    /// there; the other entries of its bin keep their order.
    fn take_entry(&mut self, key: &u64) -> (r: Option<(u64, V)>)
        requires
            old(self).wf(),
        ensures
            final(self).wf(),
            final(self)@ == old(self)@.remove(*key),
            final(self).bins() == old(self).bins(),
            old(self)@.contains_key(*key) ==> r == Some((*key, old(self)@[*key])) && final(self).size()
                == old(self).size() - 1,
            !old(self)@.contains_key(*key) ==> r is None && final(self).size() == old(self).size(),
    {
        let k0 = *key;
        let n = self.table.len();
        let b = slot(k0, n);
        let ghost t0 = self.table@;
        let j = match find_in(&self.table[b], k0) {
            Some(j) => j,
            None => {
                proof {
                    old(self).lemma_absent(k0);
                    assert(self@ =~= old(self)@.remove(k0));
                }
                return None;
            },
        };
        proof {
            old(self).lemma_entry(k0, j as int);
        }
        let mut bin: Vec<(u64, V)> = Vec::new();
        std::mem::swap(&mut bin, &mut self.table[b]);
        let ghost old_bin = bin@;
        assert(old_bin == t0[b as int]@);
        let entry = bin.remove(j);
        std::mem::swap(&mut bin, &mut self.table[b]);
        proof {
            assert(self.table@ == t0.update(b as int, self.table@[b as int]));
            lemma_total_update(t0, b as int, self.table@[b as int]);
        }
        self.count = self.count - 1;
        proof {
            let t = self.table@;
            assert(t[b as int]@ == old_bin.remove(j as int));
            assert forall|i: int, x: int|
                0 <= i < t.len() && 0 <= x < t[i]@.len() implies slot_of((#[trigger] t[i]@[x]).0, t.len() as int)
                == i by {
                if i == b {
                    if x < j {
                        assert(t[i]@[x] == t0[i]@[x]);
                    } else {
                        assert(t[i]@[x] == t0[i]@[x + 1]);
                    }
                } else {
                    assert(t[i] == t0[i]);
                    assert(t0[i]@[x] == t[i]@[x]);
                }
            }
            assert forall|i: int, a: int, c: int|
                0 <= i < t.len() && 0 <= a < c < t[i]@.len() implies (#[trigger] t[i]@[a]).0 != (
                #[trigger] t[i]@[c]).0 by {
                if i == b {
                    let a0 = if a < j { a } else { a + 1 };
                    let c0 = if c < j { c } else { c + 1 };
                    assert(t[i]@[a] == t0[i]@[a0]);
                    assert(t[i]@[c] == t0[i]@[c0]);
                } else {
                    assert(t[i] == t0[i]);
                    assert(t0[i]@[a] == t[i]@[a]);
                    assert(t0[i]@[c] == t[i]@[c]);
                }
            }
            assert(self.wf());
            assert forall|k: u64| #[trigger] self@.contains_key(k) == old(self)@.remove(k0).contains_key(k) by {
                if k == k0 {
                    if self@.contains_key(k) {
                        let x = choose|x: int| 0 <= x < self.bin(k).len() && self.bin(k)[x].0 == k;
                        let x0 = if x < j { x } else { x + 1 };
                        assert(old(self).bin(k)[x0].0 == k);
                        assert(t0[b as int]@[x0].0 != t0[b as int]@[j as int].0 || x0 == j);
                    }
                } else if slot_of(k, n as int) == b {
                    if self@.contains_key(k) {
                        let x = choose|x: int| 0 <= x < self.bin(k).len() && self.bin(k)[x].0 == k;
                        let x0 = if x < j { x } else { x + 1 };
                        assert(old(self).bin(k)[x0].0 == k);
                    }
                    if old(self)@.contains_key(k) {
                        let x = choose|x: int| 0 <= x < old(self).bin(k).len() && old(self).bin(k)[x].0 == k;
                        assert(x != j);
                        let x1 = if x < j { x } else { x - 1 };
                        assert(self.bin(k)[x1].0 == k);
                    }
                } else {
                    assert(self.bin(k) == old(self).bin(k));
                }
            }
            assert forall|k: u64| #[trigger] self@.contains_key(k) implies self@[k] == old(self)@.remove(k0)[k] by {
                let x = choose|x: int| 0 <= x < self.bin(k).len() && self.bin(k)[x].0 == k;
                self.lemma_entry(k, x);
                if slot_of(k, n as int) == b {
                    let x0 = if x < j { x } else { x + 1 };
                    old(self).lemma_entry(k, x0);
                } else {
                    assert(self.bin(k) == old(self).bin(k));
                    old(self).lemma_entry(k, x);
                }
            }
            assert(self@ =~= old(self)@.remove(k0));
        }
        Some(entry)
    }

    /// Every entry, bin by bin, each bin from its front: each key of the
    /// map once, with its value.
    pub fn get_iter(&self) -> (r: Vec<&(u64, V)>)
        requires
            self.wf(),
        ensures
            forall|x: int| 0 <= x < r@.len() ==> self@.contains_key((#[trigger] r@[x]).0) && self@[r@[x].0] == r@[x].1,
            forall|k: u64| #[trigger] self@.contains_key(k) ==> exists|x: int| 0 <= x < r@.len() && r@[x].0 == k,
            forall|x: int, y: int| 0 <= x < y < r@.len() ==> (#[trigger] r@[x]).0 != (#[trigger] r@[y]).0,
    {
        let n = self.table.len();
        let mut out: Vec<&(u64, V)> = Vec::new();
        let mut i: usize = 0;
        while i < n
            invariant
                self.wf(),
                n == self.table@.len(),
                i <= n,
                forall|x: int| 0 <= x < out@.len() ==> self@.contains_key((#[trigger] out@[x]).0) && self@[out@[x].0] == out@[x].1 && slot_of(out@[x].0, n as int) < i,
                forall|k: u64| #[trigger] self@.contains_key(k) && slot_of(k, n as int) < i ==> exists|x: int| 0 <= x < out@.len() && out@[x].0 == k,
                forall|x: int, y: int| 0 <= x < y < out@.len() ==> (#[trigger] out@[x]).0 != (#[trigger] out@[y]).0,
            decreases n - i,
        {
            let bin = &self.table[i];
            let ghost start = out@.len();
            let mut j: usize = 0;
            while j < bin.len()
                invariant
                    self.wf(),
                    n == self.table@.len(),
                    i < n,
                    bin@ == self.table@[i as int]@,
                    j <= bin@.len(),
                    start <= out@.len(),
                    out@.len() == start + j,
                    forall|x: int| 0 <= x < j ==> #[trigger] out@[start + x] == &bin@[x],
                    forall|x: int| 0 <= x < out@.len() ==> self@.contains_key((#[trigger] out@[x]).0) && self@[out@[x].0] == out@[x].1 && slot_of(out@[x].0, n as int) <= i,
                    forall|x: int| 0 <= x < start ==> slot_of((#[trigger] out@[x]).0, n as int) < i,
                    forall|k: u64| #[trigger] self@.contains_key(k) && slot_of(k, n as int) < i ==> exists|x: int| 0 <= x < out@.len() && out@[x].0 == k,
                    forall|x: int, y: int| 0 <= x < y < out@.len() ==> (#[trigger] out@[x]).0 != (#[trigger] out@[y]).0,
                decreases bin@.len() - j,
            {
                let e = &bin[j];
                proof {
                    assert(self.table@[i as int]@[j as int] == *e);
                    assert(slot_of(e.0, n as int) == i);
                    self.lemma_entry(e.0, j as int);
                    assert forall|x: int| 0 <= x < out@.len() implies (#[trigger] out@[x]).0 != e.0 by {
                        if x >= start {
                            let x1 = x - start;
                            assert(out@[start + x1] == &bin@[x1]);
                            assert(self.table@[i as int]@[x1].0 != self.table@[i as int]@[j as int].0);
                        }
                    }
                }
                let ghost before = out@;
                out.push(e);
                proof {
                    assert forall|k: u64| #[trigger] self@.contains_key(k) && slot_of(k, n as int) < i implies exists|x: int|
                        0 <= x < out@.len() && out@[x].0 == k by {
                        let x = choose|x: int| 0 <= x < before.len() && before[x].0 == k;
                        assert(out@[x] == before[x]);
                    }
                }
                j += 1;
            }
            proof {
                assert forall|k: u64| #[trigger] self@.contains_key(k) && slot_of(k, n as int) < i + 1 implies exists|x: int|
                    0 <= x < out@.len() && out@[x].0 == k by {
                    if slot_of(k, n as int) == i {
                        let x = choose|x: int| 0 <= x < self.bin(k).len() && self.bin(k)[x].0 == k;
                        assert(out@[start + x] == &bin@[x]);
                    }
                }
            }
            i += 1;
        }
        out
    }

    /// Rebuilds the table with `new_size + 1` bins, putting the entries in
    /// bin by bin, each bin from its front, as `insert` does, so that the
    /// table may grow again on the way.
    pub fn resize(&mut self, new_size: usize)
        requires
            old(self).wf(),
            new_size < usize::MAX,
        ensures
            final(self).wf(),
            final(self)@ == old(self)@,
            final(self).size() == old(self).size(),
        decreases old(self).size(), 0nat,
    {
        let mut out: HashedMap<V> = Self::with_capacity(new_size);
        let mut table: Vec<Vec<(u64, V)>> = Vec::new();
        std::mem::swap(&mut table, &mut self.table);
        let ghost t = table@;
        let ghost m = old(self)@;
        let ghost n = t.len() as int;
        let ghost mut i: int = 0;
        for bin in it: table.into_iter()
            invariant
                it.seq() == t,
                i == it.index(),
                0 <= i <= n,
                n == old(self).table@.len(),
                t == old(self).table@,
                m == old(self)@,
                old(self).wf(),
                out.wf(),
                out.size() == total(t.take(i)),
                out@ == Map::new(|k: u64| m.contains_key(k) && slot_of(k, n) < i, |k: u64| m[k]),
        {
            let ghost b = bin@;
            proof {
                assert(b == t[i]@);
                lemma_total_prefix(t, i);
                lemma_total_prefix(t, i + 1);
                lemma_total_prefix(t, n);
            }
            let ghost mut j: int = 0;
            for e in it2: bin.into_iter()
                invariant
                    it2.seq() == b,
                    j == it2.index(),
                    0 <= j <= b.len(),
                    b == t[i]@,
                    0 <= i < n,
                    n == old(self).table@.len(),
                    t == old(self).table@,
                    m == old(self)@,
                    old(self).wf(),
                    out.wf(),
                    out.size() == total(t.take(i)) + j,
                    total(t.take(i)) + b.len() <= total(t),
                    total(t) == old(self).size(),
                    out@ == Map::new(
                        |k: u64|
                            m.contains_key(k) && (slot_of(k, n) < i || (slot_of(k, n) == i && exists|x: int|
                                0 <= x < j && b[x].0 == k)),
                        |k: u64| m[k],
                    ),
            {
                let (k, v) = e;
                proof {
                    assert(b[j] == (k, v));
                    assert(t[i]@[j] == (k, v));
                    assert(slot_of(k, n) == i);
                    old(self).lemma_entry(k, j);
                    assert(!out@.contains_key(k)) by {
                        if out@.contains_key(k) {
                            let x = choose|x: int| 0 <= x < j && b[x].0 == k;
                            assert(t[i]@[x].0 != t[i]@[j].0);
                        }
                    }
                }
                let ghost before = out@;
                out.insert(k, v);
                proof {
                    assert(out@ =~= Map::new(
                        |k2: u64|
                            m.contains_key(k2) && (slot_of(k2, n) < i || (slot_of(k2, n) == i && exists|x: int|
                                0 <= x < j + 1 && b[x].0 == k2)),
                        |k2: u64| m[k2],
                    )) by {
                        assert forall|k2: u64| #[trigger] out@.contains_key(k2) == (m.contains_key(k2) && (
                        slot_of(k2, n) < i || (slot_of(k2, n) == i && exists|x: int|
                            0 <= x < j + 1 && b[x].0 == k2))) by {
                            if k2 != k && slot_of(k2, n) == i && m.contains_key(k2) && exists|x: int|
                                0 <= x < j + 1 && b[x].0 == k2 {
                                let x = choose|x: int| 0 <= x < j + 1 && b[x].0 == k2;
                                assert(x < j);
                            }
                        }
                    }
                    j = j + 1;
                }
            }
            proof {
                assert(out@ =~= Map::new(|k: u64| m.contains_key(k) && slot_of(k, n) < i + 1, |k: u64| m[k])) by {
                    assert forall|k: u64| #[trigger] m.contains_key(k) && slot_of(k, n) == i implies exists|x: int|
                        0 <= x < b.len() && b[x].0 == k by {
                        let x = choose|x: int| 0 <= x < old(self).bin(k).len() && old(self).bin(k)[x].0 == k;
                        assert(b[x].0 == k);
                    }
                }
                i = i + 1;
            }
        }
        proof {
            assert(t.take(n) =~= t);
            assert forall|k: u64| m.contains_key(k) implies slot_of(k, n) < n by {}
            assert(out@ =~= m);
        }
        *self = out;
    }
}

impl<V: Clone> HashedMap<V> {
    /// Looks `key` up and hands back its entry, with a clone of its value,
    /// where it is there. Only the newest entry of a bin is unlinked from
    /// it: an entry further down its bin stays in the map.
    pub fn remove(&mut self, key: &u64) -> (r: Option<(u64, V)>)
        requires
            old(self).wf(),
        ensures
            final(self).wf(),
            final(self).bins() == old(self).bins(),
            !old(self)@.contains_key(*key) ==> r is None && final(self)@ == old(self)@ && final(self).size()
                == old(self).size(),
            old(self)@.contains_key(*key) ==> (r matches Some(e) && e.0 == *key && cloned(old(self)@[*key], e.1)),
            old(self)@.contains_key(*key) && old(self).at_front(*key) ==> final(self)@ == old(self)@.remove(*key)
                && final(self).size() == old(self).size() - 1,
            old(self)@.contains_key(*key) && !old(self).at_front(*key) ==> final(self)@ == old(self)@
                && final(self).size() == old(self).size(),
    {
        let n = self.table.len();
        let b = slot(*key, n);
        match find_in(&self.table[b], *key) {
            None => {
                proof {
                    self.lemma_absent(*key);
                }
                None
            },
            Some(j) => {
                proof {
                    self.lemma_entry(*key, j as int);
                }
                if j == 0 {
                    self.take_entry(key)
                } else {
                    proof {
                        let t = self.table@;
                        assert(t[b as int]@[0].0 != t[b as int]@[j as int].0);
                    }
                    let v = self.table[b][j].1.clone();
                    Some((*key, v))
                }
            },
        }
    }
}

/// A hash set of integers: a `HashedMap` whose values carry nothing.
pub struct HashedSet {
    internal: HashedMap<()>,
}

impl View for HashedSet {
    type V = Set<u64>;

    closed spec fn view(&self) -> Set<u64> {
        self.internal@.dom()
    }
}

impl HashedSet {
    pub closed spec fn wf(&self) -> bool {
        self.internal.wf()
    }

    /// The number of members.
    pub closed spec fn size(&self) -> nat {
        self.internal.size()
    }

    /// A set of 65 empty bins.
    pub fn new() -> (r: Self)
        ensures
            r.wf(),
            r@ == Set::<u64>::empty(),
            r.size() == 0,
    {
        let r = HashedSet { internal: HashedMap::new() };
        assert(r@ =~= Set::<u64>::empty());
        r
    }

    /// A set of `capacity + 1` empty bins.
    pub fn with_capacity(capacity: usize) -> (r: Self)
        requires
            capacity < usize::MAX,
        ensures
            r.wf(),
            r@ == Set::<u64>::empty(),
            r.size() == 0,
    {
        let r = HashedSet { internal: HashedMap::with_capacity(capacity) };
        assert(r@ =~= Set::<u64>::empty());
        r
    }

    /// Adds `key`.
    pub fn insert(&mut self, key: u64)
        requires
            old(self).wf(),
            old(self).size() < usize::MAX,
        ensures
            final(self).wf(),
            final(self)@ == old(self)@.insert(key),
            final(self).size() == old(self).size() + if old(self)@.contains(key) { 0int } else { 1int },
            !old(self)@.contains(key) ==> final(self).at_front(key),
    {
        self.internal.insert(key, ());
        assert(self@ =~= old(self)@.insert(key));
    }

    /// Whether `key` is a member.
    pub fn contains(&self, key: &u64) -> (r: bool)
        requires
            self.wf(),
        ensures
            r == self@.contains(*key),
    {
        self.internal.contains(key)
    }

    /// Whether `k` is the newest member of its bin.
    pub closed spec fn at_front(&self, k: u64) -> bool {
        self.internal.at_front(k)
    }

    /// Hands `key` back where it is a member, as `HashedMap::remove` does:
    /// only the newest member of a bin is taken out of the set.
    pub fn remove(&mut self, key: &u64) -> (r: Option<u64>)
        requires
            old(self).wf(),
        ensures
            final(self).wf(),
            old(self)@.contains(*key) ==> r == Some(*key),
            !old(self)@.contains(*key) ==> r is None && final(self)@ == old(self)@,
            old(self)@.contains(*key) && old(self).at_front(*key) ==> final(self)@ == old(self)@.remove(*key),
            old(self)@.contains(*key) && !old(self).at_front(*key) ==> final(self)@ == old(self)@,
    {
        let r = match self.internal.remove(key) {
            Some((k, _)) => Some(k),
            None => None,
        };
        assert(old(self)@.contains(*key) && old(self).at_front(*key) ==> self@ =~= old(self)@.remove(*key));
        r
    }

    /// Rebuilds the table with `new_size + 1` bins, as `HashedMap::resize`
    /// does.
    pub fn resize(&mut self, new_size: usize)
        requires
            old(self).wf(),
            new_size < usize::MAX,
        ensures
            final(self).wf(),
            final(self)@ == old(self)@,
            final(self).size() == old(self).size(),
    {
        self.internal.resize(new_size);
    }

    /// Every member, bin by bin, each bin from its front, each once.
    pub fn get_iter(&self) -> (r: Vec<u64>)
        requires
            self.wf(),
        ensures
            forall|x: int| 0 <= x < r@.len() ==> self@.contains(#[trigger] r@[x]),
            forall|k: u64| #[trigger] self@.contains(k) ==> exists|x: int| 0 <= x < r@.len() && r@[x] == k,
            forall|x: int, y: int| 0 <= x < y < r@.len() ==> #[trigger] r@[x] != #[trigger] r@[y],
    {
        let entries = self.internal.get_iter();
        let mut out: Vec<u64> = Vec::new();
        let mut i: usize = 0;
        while i < entries.len()
            invariant
                i <= entries@.len(),
                out@.len() == i,
                forall|x: int| 0 <= x < i ==> #[trigger] out@[x] == entries@[x].0,
            decreases entries@.len() - i,
        {
            out.push(entries[i].0);
            i += 1;
        }
        proof {
            assert forall|k: u64| #[trigger] self@.contains(k) implies exists|x: int| 0 <= x < out@.len() && out@[x] == k by {
                assert(self.internal@.contains_key(k));
                let x = choose|x: int| 0 <= x < entries@.len() && entries@[x].0 == k;
                assert(out@[x] == k);
            }
            assert forall|x: int, y: int| 0 <= x < y < out@.len() implies #[trigger] out@[x] != #[trigger] out@[y] by {
                assert(entries@[x].0 != entries@[y].0);
            }
        }
        out
    }
}

/// What a lookup gives back is what the last insert of the key put there,
/// whatever else was inserted.
pub proof fn law_read_after_write<V>(m: Map<u64, V>, k: u64, v: V, other: u64)
    ensures
        m.insert(k, v).contains_key(k) && m.insert(k, v)[k] == v,
        other != k ==> m.insert(k, v).contains_key(other) == m.contains_key(other),
        other != k && m.contains_key(other) ==> m.insert(k, v)[other] == m[other],
{
}

} // verus!
