//! Fixed-capacity lists and a growable list built from a chain of them.
use vstd::prelude::*;

verus! {

/// A list that holds at most `COUNT` items.
pub struct StaticList<T, const COUNT: usize> {
    values: Vec<T>,
}

impl<T, const COUNT: usize> View for StaticList<T, COUNT> {
    type V = Seq<T>;

    closed spec fn view(&self) -> Seq<T> {
        self.values@
    }
}

impl<T, const COUNT: usize> StaticList<T, COUNT> {
    /// The list holds no more than `COUNT` items.
    pub closed spec fn wf(&self) -> bool {
        self.values@.len() <= COUNT
    }

    /// An empty list.
    pub fn new() -> (r: Self)
        ensures
            r.wf(),
            r@ == Seq::<T>::empty(),
    {
        StaticList { values: Vec::new() }
    }

    pub fn len(&self) -> (r: usize)
        ensures
            r == self@.len(),
    {
        self.values.len()
    }

    pub fn is_empty(&self) -> (r: bool)
        ensures
            r == (self@.len() == 0),
    {
        self.values.len() == 0
    }

    /// The item at `index`, if there is one.
    pub fn get(&self, index: usize) -> (r: Option<&T>)
        ensures
            index < self@.len() ==> r == Some(&self@[index as int]),
            index >= self@.len() ==> r is None,
    {
        if self.values.len() <= index {
            None
        } else {
            Some(&self.values[index])
        }
    }

    /// The item at `index`, for change in place, if there is one.
    pub fn get_mut(&mut self, index: usize) -> (r: Option<&mut T>)
        requires
            old(self).wf(),
        ensures
            index < old(self)@.len() ==> r is Some && *r->0 == old(self)@[index as int]
                && final(self)@ == old(self)@.update(index as int, *final(r->0)),
            index >= old(self)@.len() ==> r is None && final(self)@ == old(self)@,
            final(self).wf(),
    {
        if self.values.len() <= index {
            None
        } else {
            Some(&mut self.values[index])
        }
    }

    /// Appends `value` when there is room; hands it back otherwise.
    pub fn try_push(&mut self, value: T) -> (r: Result<(), T>)
        requires
            old(self).wf(),
        ensures
            final(self).wf(),
            old(self)@.len() < COUNT ==> r is Ok && final(self)@ == old(self)@.push(value),
            old(self)@.len() >= COUNT ==> r == Err::<(), T>(value) && final(self)@ == old(self)@,
    {
        if self.values.len() >= COUNT {
            Err(value)
        } else {
            self.values.push(value);
            Ok(())
        }
    }

    /// Removes and returns the last item.
    pub fn try_pop(&mut self) -> (r: Option<T>)
        requires
            old(self).wf(),
        ensures
            final(self).wf(),
            old(self)@.len() == 0 ==> r is None && final(self)@ == old(self)@,
            old(self)@.len() > 0 ==> r == Some(old(self)@.last()) && final(self)@
                == old(self)@.drop_last(),
    {
        self.values.pop()
    }

    /// Inserts `value` at `index` when `index` is at most the length and
    /// there is room; hands it back otherwise.
    pub fn try_insert(&mut self, index: usize, value: T) -> (r: Result<(), T>)
        requires
            old(self).wf(),
        ensures
            final(self).wf(),
            index <= old(self)@.len() && old(self)@.len() < COUNT ==> r is Ok && final(self)@
                == old(self)@.insert(index as int, value),
            !(index <= old(self)@.len() && old(self)@.len() < COUNT) ==> r == Err::<(), T>(value)
                && final(self)@ == old(self)@,
    {
        if index > self.values.len() {
            return Err(value);
        }
        if index == self.values.len() {
            let r = self.try_push(value);
            proof {
                if r is Ok {
                    assert(self@ =~= old(self)@.insert(index as int, value));
                }
            }
            return r;
        }
        if self.values.len() >= COUNT {
            Err(value)
        } else {
            self.values.insert(index, value);
            Ok(())
        }
    }

    /// Removes and returns the item at `index`, if there is one.
    pub fn try_remove(&mut self, index: usize) -> (r: Option<T>)
        requires
            old(self).wf(),
        ensures
            final(self).wf(),
            index < old(self)@.len() ==> r == Some(old(self)@[index as int]) && final(self)@
                == old(self)@.remove(index as int),
            index >= old(self)@.len() ==> r is None && final(self)@ == old(self)@,
    {
        if index >= self.values.len() {
            None
        } else {
            Some(self.values.remove(index))
        }
    }

    /// The items, in order.
    pub fn as_slice(&self) -> (r: &[T])
        ensures
            r@ == self@,
    {
        self.values.as_slice()
    }

    /// A cursor over the items that borrows the list.
    pub fn iter(&self) -> (r: StaticListRefIter<'_, T, COUNT>)
        ensures
            r.items() == self@,
            r.position() == 0,
    {
        StaticListRefIter { list: self, index: 0 }
    }

    /// Consumes the list into a cursor that hands the items out front to
    /// back.
    pub fn into_iter(self) -> (r: StaticListIter<T, COUNT>)
        ensures
            r.remaining() == self@,
    {
        let mut values = self.values;
        let ghost all = values@;
        let mut rev: Vec<T> = Vec::new();
        while values.len() > 0
            invariant
                values@ == all.take(values@.len() as int),
                rev@ == all.skip(values@.len() as int).reverse(),
                values@.len() <= all.len(),
            decreases values@.len(),
        {
            let ghost n = values@.len();
            let x = values.pop().unwrap();
            rev.push(x);
            assert(values@ =~= all.take(values@.len() as int));
            assert(rev@ =~= all.skip(values@.len() as int).reverse());
        }
        assert(all.skip(0) =~= all);
        StaticListIter { rev }
    }
}

/// A cursor over the items of a [`StaticList`] that borrows it.
pub struct StaticListRefIter<'a, T, const COUNT: usize> {
    list: &'a StaticList<T, COUNT>,
    index: usize,
}

impl<'a, T, const COUNT: usize> StaticListRefIter<'a, T, COUNT> {
    /// All items of the list.
    pub closed spec fn items(&self) -> Seq<T> {
        self.list@
    }

    /// How many items were handed out.
    pub closed spec fn position(&self) -> int {
        self.index as int
    }

    /// The next item, if any is left.
    pub fn next(&mut self) -> (r: Option<&'a T>)
        ensures
            final(self).items() == old(self).items(),
            old(self).position() < old(self).items().len() ==> r == Some(
                &old(self).items()[old(self).position()],
            ) && final(self).position() == old(self).position() + 1,
            old(self).position() >= old(self).items().len() ==> r is None && final(self).position()
                == old(self).position(),
    {
        if self.index < self.list.values.len() {
            let out = &self.list.values[self.index];
            self.index += 1;
            Some(out)
        } else {
            None
        }
    }
}

/// A cursor that owns the items of a [`StaticList`] and hands them out.
pub struct StaticListIter<T, const COUNT: usize> {
    rev: Vec<T>,
}

impl<T, const COUNT: usize> StaticListIter<T, COUNT> {
    /// The items not handed out yet, front first.
    pub closed spec fn remaining(&self) -> Seq<T> {
        self.rev@.reverse()
    }

    /// Hands out the first remaining item, if any.
    pub fn next(&mut self) -> (r: Option<T>)
        ensures
            old(self).remaining().len() > 0 ==> r == Some(old(self).remaining()[0])
                && final(self).remaining() == old(self).remaining().drop_first(),
            old(self).remaining().len() == 0 ==> r is None && final(self).remaining() == old(
                self,
            ).remaining(),
    {
        let ghost before = self.rev@;
        let r = self.rev.pop();
        proof {
            if before.len() > 0 {
                assert(self.rev@.reverse() =~= before.reverse().drop_first());
            }
        }
        r
    }
}


/// Concatenating sequences of chunks concatenates their flattenings.
pub proof fn lemma_flatten_concat<T>(a: Seq<Seq<T>>, b: Seq<Seq<T>>)
    ensures
        (a + b).flatten() == a.flatten() + b.flatten(),
    decreases a.len(),
{
    if a.len() == 0 {
        assert(a + b =~= b);
        assert(a.flatten() + b.flatten() =~= b.flatten());
    } else {
        assert((a + b).drop_first() =~= a.drop_first() + b);
        lemma_flatten_concat(a.drop_first(), b);
        assert((a + b).first() == a.first());
        assert((a + b).flatten() =~= a.first() + (a.drop_first().flatten() + b.flatten()));
    }
}

/// A single chunk flattens to itself.
pub proof fn lemma_flatten_single<T>(x: Seq<T>)
    ensures
        seq![x].flatten() == x,
{
    assert(seq![x].drop_first() =~= Seq::<Seq<T>>::empty());
    assert(seq![x].flatten() =~= x + Seq::<Seq<T>>::empty().flatten());
}

/// Splitting a sequence of chunks around chunk `i`.
pub proof fn lemma_flatten_split<T>(s: Seq<Seq<T>>, i: int)
    requires
        0 <= i < s.len(),
    ensures
        s.flatten() == s.take(i).flatten() + s[i] + s.skip(i + 1).flatten(),
        s.take(i + 1).flatten() == s.take(i).flatten() + s[i],
        s.take(i).flatten().len() + s[i].len() <= s.flatten().len(),
{
    assert(s =~= s.take(i) + seq![s[i]] + s.skip(i + 1));
    assert(s.take(i + 1) =~= s.take(i) + seq![s[i]]);
    lemma_flatten_concat(s.take(i) + seq![s[i]], s.skip(i + 1));
    lemma_flatten_concat(s.take(i), seq![s[i]]);
    lemma_flatten_single(s[i]);
}

/// Replacing chunk `i` replaces its items in the flattening.
pub proof fn lemma_flatten_update<T>(s: Seq<Seq<T>>, i: int, x: Seq<T>)
    requires
        0 <= i < s.len(),
    ensures
        s.update(i, x).flatten() == s.take(i).flatten() + x + s.skip(i + 1).flatten(),
{
    lemma_flatten_split(s.update(i, x), i);
    assert(s.update(i, x).take(i) =~= s.take(i));
    assert(s.update(i, x).skip(i + 1) =~= s.skip(i + 1));
}

/// The chunks of `s` that hold items, in order.
pub open spec fn non_empty_chunks<T>(s: Seq<Seq<T>>) -> Seq<Seq<T>>
    decreases s.len(),
{
    if s.len() == 0 {
        Seq::empty()
    } else {
        let prev = non_empty_chunks(s.drop_last());
        if s.last().len() > 0 {
            prev.push(s.last())
        } else {
            prev
        }
    }
}

/// The items of each list, list by list.
pub open spec fn views<T>(s: Seq<StaticList<T, 32>>) -> Seq<Seq<T>> {
    s.map_values(|l: StaticList<T, 32>| l@)
}

/// A growable list kept as a chain of chunks of at most 32 items.
pub struct ArrayList<T> {
    lists: Vec<StaticList<T, 32>>,
    len: usize,
}

impl<T> ArrayList<T> {
    /// The length that the list reports: the number of items pushed or
    /// inserted and not removed since it was made or cleared, each item that
    /// a sort put back counted once more.
    pub closed spec fn count(&self) -> nat {
        self.len as nat
    }

    /// The items of each chunk, chunk by chunk.
    pub closed spec fn chunks(&self) -> Seq<Seq<T>> {
        views(self.lists@)
    }
}

impl<T> View for ArrayList<T> {
    type V = Seq<T>;

    closed spec fn view(&self) -> Seq<T> {
        self.chunks().flatten()
    }
}

impl<T> ArrayList<T> {
    /// Every chunk respects its capacity, and the reported length is at least
    /// the number of items.
    pub closed spec fn wf(&self) -> bool {
        &&& forall|i: int| 0 <= i < self.lists@.len() ==> (#[trigger] self.lists@[i]).wf()
        &&& self.len >= self@.len()
    }

    /// A well-formed list holds no more items than it reports, and reports
    /// a length that fits in `usize`.
    pub proof fn lemma_items_within_count(&self)
        requires
            self.wf(),
        ensures
            self@.len() <= self.count() <= usize::MAX,
    {
    }

    /// An empty list.
    pub fn new() -> (r: Self)
        ensures
            r.wf(),
            r@ == Seq::<T>::empty(),
            r.count() == 0,
    {
        let r = ArrayList { lists: Vec::new(), len: 0 };
        assert(r.chunks() =~= Seq::<Seq<T>>::empty());
        r
    }

    /// The reported length: the number of items, unless a sort counted
    /// them again.
    pub fn len(&self) -> (r: usize)
        requires
            self.wf(),
        ensures
            r == self.count(),
    {
        self.len
    }

    /// Whether the reported length is 0.
    pub fn is_empty(&self) -> (r: bool)
        requires
            self.wf(),
        ensures
            r == (self.count() == 0),
    {
        self.len == 0
    }

    /// Finds the chunk that holds item `index` and the position in it.
    fn locate(&self, index: usize) -> (r: Option<(usize, usize)>)
        requires
            self.wf(),
        ensures
            index >= self@.len() ==> r is None,
            index < self@.len() ==> (r matches Some((i, off)) && i < self.lists@.len() && off
                < self.chunks()[i as int].len() && index == self.chunks().take(i as int).flatten().len()
                + off),
    {
        let ghost cs = self.chunks();
        let mut base: usize = 0;
        let mut i: usize = 0;
        while i < self.lists.len()
            invariant
                self.wf(),
                cs == self.chunks(),
                i <= self.lists@.len(),
                base == cs.take(i as int).flatten().len(),
                base <= index,
            decreases self.lists@.len() - i,
        {
            proof {
                lemma_flatten_split(cs, i as int);
            }
            let bprime = base + self.lists[i].len();
            if index < bprime {
                return Some((i, index - base));
            }
            base = bprime;
            i += 1;
        }
        proof {
            assert(cs.take(i as int) =~= cs);
        }
        None
    }

    /// The item at `index`, if there is one.
    pub fn get(&self, index: usize) -> (r: Option<&T>)
        requires
            self.wf(),
        ensures
            index < self@.len() ==> r == Some(&self@[index as int]),
            index >= self@.len() ==> r is None,
    {
        match self.locate(index) {
            None => None,
            Some((i, off)) => {
                proof {
                    lemma_flatten_split(self.chunks(), i as int);
                }
                self.lists[i].get(off)
            },
        }
    }

    /// The item at `index`, for change in place, if there is one.
    pub fn get_mut(&mut self, index: usize) -> (r: Option<&mut T>)
        requires
            old(self).wf(),
        ensures
            index < old(self)@.len() ==> r is Some && *r->0 == old(self)@[index as int]
                && final(self)@ == old(self)@.update(index as int, *final(r->0)),
            index >= old(self)@.len() ==> r is None && final(self)@ == old(self)@,
            final(self).wf(),
    {
        match self.locate(index) {
            None => None,
            Some((i, off)) => {
                let ghost cs = self.chunks();
                let ghost c = cs[i as int];
                let ghost ls = self.lists@;
                let ghost p = cs.take(i as int).flatten();
                let ghost q = cs.skip(i as int + 1).flatten();
                proof {
                    lemma_flatten_split(cs, i as int);
                    assert forall|f: StaticList<T, 32>| #[trigger]
                        views(ls.update(i as int, f)) == cs.update(i as int, f@) by {
                        assert(views(ls.update(i as int, f)) =~= cs.update(i as int, f@));
                    }
                    assert forall|x: Seq<T>| #[trigger]
                        cs.update(i as int, x).flatten() == p + x + q by {
                        lemma_flatten_update(cs, i as int, x);
                    }
                    assert forall|y: T| #[trigger]
                        (p + c.update(off as int, y) + q) == (p + c + q).update(
                            index as int,
                            y,
                        ) by {
                        assert(p + c.update(off as int, y) + q =~= (p + c + q).update(
                            index as int,
                            y,
                        ));
                    }
                }
                self.lists[i].get_mut(off)
            },
        }
    }

    /// Appends `value` at the end.
    pub fn push(&mut self, value: T)
        requires
            old(self).wf(),
            old(self).count() < usize::MAX,
        ensures
            final(self).wf(),
            final(self)@ == old(self)@.push(value),
            final(self).count() == old(self).count() + 1,
    {
        let ghost cs = self.chunks();
        let ghost v = value;
        let mut value = value;
        if self.lists.len() > 0 {
            let idx = self.lists.len() - 1;
            proof {
                lemma_flatten_split(cs, idx as int);
                assert(cs.skip(idx as int + 1) =~= Seq::<Seq<T>>::empty());
            }
            let r = self.lists[idx].try_push(value);
            match r {
                Err(e) => {
                    value = e;
                    assert(self.chunks() =~= cs);
                },
                Ok(()) => {
                    proof {
                        assert(self.chunks() =~= cs.update(idx as int, cs[idx as int].push(v)));
                        lemma_flatten_update(cs, idx as int, cs[idx as int].push(v));
                        assert(self@ =~= old(self)@.push(v));
                    }
                    self.len += 1;
                    return;
                },
            }
        }
        let mut list = StaticList::new();
        let _ = list.try_push(value);
        self.lists.push(list);
        proof {
            assert(self.chunks() =~= cs + seq![seq![v]]);
            lemma_flatten_concat(cs, seq![seq![v]]);
            lemma_flatten_single(seq![v]);
            assert(self@ =~= old(self)@.push(v));
        }
        self.len += 1;
    }

    /// Inserts `value` so that it stands at `index`; where `index` is past
    /// the end, `value` is appended.
    pub fn insert(&mut self, index: usize, value: T)
        requires
            old(self).wf(),
            old(self).count() < usize::MAX,
        ensures
            final(self).wf(),
            final(self).count() == old(self).count() + 1,
            index < old(self)@.len() ==> final(self)@ == old(self)@.insert(index as int, value),
            index >= old(self)@.len() ==> final(self)@ == old(self)@.push(value),
    {
        let ghost cs = self.chunks();
        let ghost v = value;
        match self.locate(index) {
            Some((i, off)) => {
                let ghost c = cs[i as int];
                let ghost p = cs.take(i as int).flatten();
                let ghost q = cs.skip(i as int + 1).flatten();
                proof {
                    lemma_flatten_split(cs, i as int);
                    assert((p + c + q).insert(index as int, v) =~= p + c.insert(off as int, v) + q);
                }
                if self.lists[i].len() < 32 {
                    let _ = self.lists[i].try_insert(off, value);
                    proof {
                        assert(self.chunks() =~= cs.update(i as int, c.insert(off as int, v)));
                        lemma_flatten_update(cs, i as int, c.insert(off as int, v));
                    }
                    self.len += 1;
                    return;
                } else {
                    let last = match self.lists[i].try_pop() {
                        Some(x) => x,
                        None => {
                            return;
                        },
                    };
                    let _ = self.lists[i].try_insert(off, value);
                    let ghost c2 = c.drop_last().insert(off as int, v);
                    proof {
                        assert(c2 + seq![last] =~= c.insert(off as int, v));
                        assert(self.chunks() =~= cs.update(i as int, c2));
                    }
                    let ghost cs2 = self.chunks();
                    if i < self.lists.len() - 1 {
                        if self.lists[i + 1].len() < 32 {
                            let _ = self.lists[i + 1].try_insert(0, last);
                            proof {
                                let n = cs[i + 1];
                                lemma_flatten_split(cs, i + 1);
                                assert(cs.skip(i as int + 1) =~= seq![n] + cs.skip(i + 2));
                                lemma_flatten_concat(seq![n], cs.skip(i + 2));
                                lemma_flatten_single(n);
                                assert(self.chunks() =~= cs.take(i as int) + seq![c2, n.insert(0, last)]
                                    + cs.skip(i + 2));
                                lemma_flatten_concat(
                                    cs.take(i as int) + seq![c2, n.insert(0, last)],
                                    cs.skip(i + 2),
                                );
                                lemma_flatten_concat(cs.take(i as int), seq![c2, n.insert(0, last)]);
                                assert(seq![c2, n.insert(0, last)] =~= seq![c2] + seq![n.insert(0, last)]);
                                lemma_flatten_concat(seq![c2], seq![n.insert(0, last)]);
                                lemma_flatten_single(c2);
                                lemma_flatten_single(n.insert(0, last));
                                assert(c2 + n.insert(0, last) =~= c.insert(off as int, v) + n);
                                assert(self@ =~= old(self)@.insert(index as int, v));
                            }
                            self.len += 1;
                            return;
                        }
                    }
                    let mut list = StaticList::new();
                    let _ = list.try_push(last);
                    if i == self.lists.len() - 1 {
                        self.lists.push(list);
                    } else {
                        self.lists.insert(i + 1, list);
                    }
                    proof {
                        assert(self.chunks() =~= cs.take(i as int) + seq![c2, seq![last]] + cs.skip(
                            i + 1,
                        ));
                        lemma_flatten_concat(cs.take(i as int) + seq![c2, seq![last]], cs.skip(i + 1));
                        lemma_flatten_concat(cs.take(i as int), seq![c2, seq![last]]);
                        assert(seq![c2, seq![last]] =~= seq![c2] + seq![seq![last]]);
                        lemma_flatten_concat(seq![c2], seq![seq![last]]);
                        lemma_flatten_single(c2);
                        lemma_flatten_single(seq![last]);
                        assert(self@ =~= old(self)@.insert(index as int, v));
                    }
                    self.len += 1;
                    return;
                }
            },
            None => {},
        }
        self.len += 1;
        let mut list = StaticList::new();
        let _ = list.try_push(value);
        self.lists.push(list);
        proof {
            assert(self.chunks() =~= cs + seq![seq![v]]);
            lemma_flatten_concat(cs, seq![seq![v]]);
            lemma_flatten_single(seq![v]);
            assert(self@ =~= old(self)@.push(v));
        }
    }

    /// Removes and returns the item at `index`, if there is one.
    pub fn remove(&mut self, index: usize) -> (r: Option<T>)
        requires
            old(self).wf(),
        ensures
            final(self).wf(),
            index < old(self)@.len() ==> r == Some(old(self)@[index as int]) && final(self)@
                == old(self)@.remove(index as int) && final(self).count() == old(self).count() - 1,
            index >= old(self)@.len() ==> r is None && final(self)@ == old(self)@
                && final(self).count() == old(self).count(),
    {
        let ghost cs = self.chunks();
        match self.locate(index) {
            None => None,
            Some((i, off)) => {
                let ghost c = cs[i as int];
                let ghost p = cs.take(i as int).flatten();
                let ghost q = cs.skip(i as int + 1).flatten();
                proof {
                    lemma_flatten_split(cs, i as int);
                    assert((p + c + q).remove(index as int) =~= p + c.remove(off as int) + q);
                }
                let out = self.lists[i].try_remove(off);
                proof {
                    assert(self.chunks() =~= cs.update(i as int, c.remove(off as int)));
                    lemma_flatten_update(cs, i as int, c.remove(off as int));
                }
                if self.lists[i].is_empty() {
                    self.lists.remove(i);
                    proof {
                        assert(self.chunks() =~= cs.take(i as int) + cs.skip(i as int + 1));
                        lemma_flatten_concat(cs.take(i as int), cs.skip(i as int + 1));
                        assert(c.remove(off as int) =~= Seq::<T>::empty());
                    }
                }
                self.len -= 1;
                out
            },
        }
    }

    /// Drops the chunks that have become empty; the items stay as they are.
    pub fn collect(&mut self)
        requires
            old(self).wf(),
        ensures
            final(self).wf(),
            final(self)@ == old(self)@,
            final(self).count() == old(self).count(),
            final(self).chunks() == non_empty_chunks(old(self).chunks()),
    {
        let ghost start = self.chunks();
        let ghost mut k: int = 0;
        let mut i: usize = 0;
        proof {
            assert(start.take(0) =~= Seq::<Seq<T>>::empty());
            assert(start.skip(0) =~= start);
            assert(self.chunks() =~= non_empty_chunks(start.take(0)) + start.skip(0));
        }
        while i < self.lists.len()
            invariant
                self.wf(),
                self@ == old(self)@,
                self.len == old(self).len,
                start == old(self).chunks(),
                0 <= k <= start.len(),
                i == non_empty_chunks(start.take(k)).len(),
                self.chunks() == non_empty_chunks(start.take(k)) + start.skip(k),
            decreases self.lists@.len() - i,
        {
            let ghost cs = self.chunks();
            proof {
                assert(cs[i as int] == start[k]);
                assert(start.take(k + 1).drop_last() =~= start.take(k));
                assert(start.take(k + 1).last() == start[k]);
            }
            if self.lists[i].is_empty() {
                self.lists.remove(i);
                proof {
                    lemma_flatten_split(cs, i as int);
                    assert(self.chunks() =~= cs.take(i as int) + cs.skip(i as int + 1));
                    lemma_flatten_concat(cs.take(i as int), cs.skip(i as int + 1));
                    assert(self.chunks() =~= non_empty_chunks(start.take(k + 1)) + start.skip(k + 1));
                    k = k + 1;
                }
            } else {
                proof {
                    assert(self.chunks() =~= non_empty_chunks(start.take(k + 1)) + start.skip(k + 1));
                    k = k + 1;
                }
                i += 1;
            }
        }
        proof {
            assert(start.skip(k).len() == 0);
            assert(start.take(k) =~= start);
            assert(self.chunks() =~= non_empty_chunks(start));
        }
    }

    /// Takes every item out, in order, leaving no chunk; the reported length
    /// stays as it was.
    pub(crate) fn take_items(&mut self) -> (r: Vec<T>)
        requires
            old(self).wf(),
        ensures
            final(self).wf(),
            r@ == old(self)@,
            final(self)@ == Seq::<T>::empty(),
            final(self).count() == old(self).count(),
    {
        let mut l: Vec<StaticList<T, 32>> = Vec::new();
        std::mem::swap(&mut self.lists, &mut l);
        assert(self.chunks() =~= Seq::<Seq<T>>::empty());
        let ghost all = views(l@);
        let mut out: Vec<T> = Vec::new();
        assert(all.take(0) =~= Seq::<Seq<T>>::empty());
        for chunk in it: l.into_iter()
            invariant
                it.seq() == old(self).lists@,
                all == views(it.seq()),
                out@ == all.take(it.index()).flatten(),
                self.wf(),
                self@ == Seq::<T>::empty(),
                self.len == old(self).len,
        {
            let ghost k = it.index();
            let mut values = chunk.values;
            proof {
                lemma_flatten_split(all, k);
                assert(all[k] == values@);
            }
            out.append(&mut values);
        }
        proof {
            assert(all.take(all.len() as int) =~= all);
        }
        out
    }

    /// Removes every item.
    pub fn clear(&mut self)
        ensures
            final(self).wf(),
            final(self)@ == Seq::<T>::empty(),
            final(self).count() == 0,
    {
        self.lists.clear();
        self.len = 0;
        assert(self.chunks() =~= Seq::<Seq<T>>::empty());
    }

    /// A cursor over the items, front to back.
    pub fn iter(&self) -> (r: ArrayListIterRef<'_, T>)
        requires
            self.wf(),
        ensures
            r.items() == self@,
            r.position() == 0,
            r.wf(),
    {
        ArrayListIterRef { list: self, indx: 0 }
    }

    /// Consumes the list into a cursor that hands the items out front to back.
    pub fn into_iter(self) -> (r: ArrayListIter<T>)
        requires
            self.wf(),
        ensures
            r.remaining() == self@,
            r.wf(),
    {
        ArrayListIter { list: self }
    }
}

/// A cursor over the items of an [`ArrayList`] that borrows it.
pub struct ArrayListIterRef<'a, T> {
    list: &'a ArrayList<T>,
    indx: usize,
}

impl<'a, T> ArrayListIterRef<'a, T> {
    /// All items of the list.
    pub closed spec fn items(&self) -> Seq<T> {
        self.list@
    }

    /// How many items were handed out.
    pub closed spec fn position(&self) -> int {
        self.indx as int
    }

    pub closed spec fn wf(&self) -> bool {
        self.list.wf()
    }

    /// The next item, if any is left.
    pub fn next(&mut self) -> (r: Option<&'a T>)
        requires
            old(self).wf(),
        ensures
            final(self).wf(),
            final(self).items() == old(self).items(),
            old(self).position() < old(self).items().len() ==> r == Some(
                &old(self).items()[old(self).position()],
            ) && final(self).position() == old(self).position() + 1,
            old(self).position() >= old(self).items().len() ==> r is None && final(self).position()
                == old(self).position(),
    {
        let out = self.list.get(self.indx);
        match out {
            Some(x) => {
                self.indx += 1;
                Some(x)
            },
            None => None,
        }
    }
}

/// A cursor that owns the items of an [`ArrayList`] and hands them out.
pub struct ArrayListIter<T> {
    list: ArrayList<T>,
}

impl<T> ArrayListIter<T> {
    /// The items not handed out yet.
    pub closed spec fn remaining(&self) -> Seq<T> {
        self.list@
    }

    pub closed spec fn wf(&self) -> bool {
        self.list.wf()
    }

    /// Hands out the first remaining item, if any.
    pub fn next(&mut self) -> (r: Option<T>)
        requires
            old(self).wf(),
        ensures
            final(self).wf(),
            old(self).remaining().len() > 0 ==> r == Some(old(self).remaining()[0])
                && final(self).remaining() == old(self).remaining().drop_first(),
            old(self).remaining().len() == 0 ==> r is None && final(self).remaining() == old(
                self,
            ).remaining(),
    {
        let r = self.list.remove(0);
        proof {
            if old(self).remaining().len() > 0 {
                assert(old(self).remaining().remove(0) =~= old(self).remaining().drop_first());
            }
        }
        r
    }
}

/// Removing at the index where an item was just inserted hands that item
/// back and leaves the items as they were before the insert.
pub proof fn law_remove_undoes_insert<T>(items: Seq<T>, index: int, value: T)
    requires
        0 <= index < items.len(),
    ensures
        items.insert(index, value)[index] == value,
        items.insert(index, value).remove(index) == items,
{
    assert(items.insert(index, value).remove(index) =~= items);
}

/// An item pushed at the end is found at the last index, and the items before
/// it keep their places.
pub proof fn law_get_after_push<T>(items: Seq<T>, value: T)
    ensures
        items.push(value).len() == items.len() + 1,
        items.push(value)[items.len() as int] == value,
        forall|i: int| 0 <= i < items.len() ==> #[trigger] items.push(value)[i] == items[i],
{
}

/// Popping right after a push hands the pushed item back and leaves the
/// items as they were.
pub proof fn law_pop_undoes_push<T>(items: Seq<T>, value: T)
    ensures
        items.push(value).last() == value,
        items.push(value).drop_last() == items,
{
    assert(items.push(value).drop_last() =~= items);
}

/// While a list has not been sorted its reported length is its number of
/// items: a new or cleared list reports 0, and push, insert and remove change
/// the reported length and the number of items alike.
pub proof fn law_length_counts_items<T>(count: nat, items: Seq<T>, index: int, value: T)
    requires
        count == items.len(),
    ensures
        count + 1 == items.push(value).len(),
        0 <= index <= items.len() ==> count + 1 == items.insert(index, value).len(),
        0 <= index < items.len() ==> count - 1 == items.remove(index).len(),
        Seq::<T>::empty().len() == 0,
{
}

} // verus!
