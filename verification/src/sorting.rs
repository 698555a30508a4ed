//! Sorting the items of an [`ArrayList`]: the items are taken out, sorted by
//! inserting each after the items not greater than it, and pushed back.
//! Pushing them back adds their number to the reported length once more.
use vstd::prelude::*;
use vstd::multiset::Multiset;
use std::cmp::Ordering;
use vstd::std_specs::cmp::{OrdSpec, PartialEqSpec, PartialOrdSpec};
use crate::array_list::ArrayList;

verus! {

/// Whether `s` is in order by `le`.
pub open spec fn sorted_by_le<T>(s: Seq<T>, le: spec_fn(T, T) -> bool) -> bool {
    forall|i: int, j: int| 0 <= i < j < s.len() ==> le(s[i], s[j])
}

/// Whether `le` relates every two values one way or the other, and chains.
pub open spec fn total_preorder<T>(le: spec_fn(T, T) -> bool) -> bool {
    &&& forall|a: T, b: T| #![trigger le(a, b)] le(a, b) || le(b, a)
    &&& forall|a: T, b: T, c: T| #![trigger le(a, b), le(b, c)] le(a, b) && le(b, c) ==> le(a, c)
}

/// Inserting a value into a sequence adds it to the sequence's multiset.
proof fn lemma_insert_to_multiset<T>(s: Seq<T>, i: int, x: T)
    requires
        0 <= i <= s.len(),
    ensures
        s.insert(i, x).to_multiset() == s.to_multiset().insert(x),
{
    broadcast use vstd::seq_lib::group_to_multiset_ensures, vstd::multiset::group_multiset_axioms;

    let t = s.insert(i, x);
    assert(t.remove(i) =~= s);
    assert(t[i] == x);
    assert(t.contains(x));
    assert(t.to_multiset().count(x) > 0);
    assert(s.to_multiset() =~= t.to_multiset().remove(x));
    assert(t.to_multiset() =~= s.to_multiset().insert(x));
}

/// Sorts `v` by `le`: each value goes before the first value that
/// `greater` says is greater than it.
fn insertion_sort<T, G: Fn(&T, &T) -> bool>(
    v: Vec<T>,
    greater: &G,
    Ghost(le): Ghost<spec_fn(T, T) -> bool>,
) -> (r: Vec<T>)
    requires
        total_preorder(le),
        forall|a: &T, b: &T| #[trigger] greater.requires((a, b)),
        forall|a: &T, b: &T, g: bool| #[trigger] greater.ensures((a, b), g) ==> g == !le(*a, *b),
    ensures
        r@.to_multiset() == v@.to_multiset(),
        r@.len() == v@.len(),
        sorted_by_le(r@, le),
{
    broadcast use {
        vstd::seq_lib::group_to_multiset_ensures,
        vstd::multiset::group_multiset_axioms,
        vstd::multiset::group_multiset_properties,
        vstd::multiset::lemma_multiset_empty_len,
    };

    let ghost input = v@;
    let mut rest = v;
    let mut out: Vec<T> = Vec::new();
    assert(out@.to_multiset() =~= Multiset::<T>::empty());
    assert(out@.to_multiset().add(rest@.to_multiset()) =~= input.to_multiset());
    while rest.len() > 0
        invariant
            total_preorder(le),
            forall|a: &T, b: &T| #[trigger] greater.requires((a, b)),
            forall|a: &T, b: &T, g: bool| #[trigger] greater.ensures((a, b), g) ==> g == !le(*a, *b),
            out@.to_multiset().add(rest@.to_multiset()) == input.to_multiset(),
            sorted_by_le(out@, le),
        decreases rest@.len(),
    {
        let ghost before_rest = rest@;
        let x = rest.pop().unwrap();
        assert(before_rest =~= rest@.push(x));
        proof {
            vstd::seq_lib::to_multiset_build(rest@, x);
        }
        let mut pos: usize = 0;
        loop
            invariant
                pos <= out@.len(),
                forall|j: int| 0 <= j < pos ==> le(#[trigger] out@[j], x),
                forall|a: &T, b: &T| #[trigger] greater.requires((a, b)),
                forall|a: &T, b: &T, g: bool| #[trigger] greater.ensures((a, b), g) ==> g == !le(*a, *b),
            ensures
                pos <= out@.len(),
                forall|j: int| 0 <= j < pos ==> le(#[trigger] out@[j], x),
                pos < out@.len() ==> !le(out@[pos as int], x),
            decreases out@.len() - pos,
        {
            if pos >= out.len() {
                break;
            }
            let g = greater(&out[pos], &x);
            if g {
                break;
            }
            pos += 1;
        }
        let ghost s = out@;
        proof {
            lemma_insert_to_multiset(s, pos as int, x);
            if pos < s.len() {
                assert(le(x, s[pos as int]) || le(s[pos as int], x));
            }
            let t = s.insert(pos as int, x);
            assert forall|i: int, j: int| 0 <= i < j < t.len() implies le(t[i], t[j]) by {
                if j < pos {
                    assert(t[i] == s[i] && t[j] == s[j]);
                } else if j == pos {
                    assert(t[i] == s[i] && t[j] == x);
                } else if i < pos {
                    assert(t[i] == s[i] && t[j] == s[j - 1]);
                } else if i == pos {
                    assert(t[j] == s[j - 1]);
                    if j - 1 > pos {
                        assert(le(s[pos as int], s[j - 1]));
                        assert(le(x, s[pos as int]) && le(s[pos as int], s[j - 1]));
                    }
                } else {
                    assert(t[i] == s[i - 1] && t[j] == s[j - 1]);
                }
            }
        }
        out.insert(pos, x);
        assert(out@ == s.insert(pos as int, x));
        assert(out@.to_multiset() == s.to_multiset().insert(x));
        assert(s.to_multiset().add(before_rest.to_multiset()) == input.to_multiset());
        assert(out@.to_multiset().add(rest@.to_multiset()) =~= input.to_multiset());
    }
    assert(rest@.to_multiset().len() == 0);
    assert(rest@.to_multiset() =~= Multiset::<T>::empty());
    assert(out@.to_multiset() =~= input.to_multiset());
    assert(out@.len() == out@.to_multiset().len());
    assert(input.len() == input.to_multiset().len());
    out
}

impl<T> ArrayList<T> {
    /// Pushes the values of `sorted` at the end, in order.
    fn push_all(&mut self, sorted: Vec<T>)
        requires
            old(self).wf(),
            old(self).count() + sorted@.len() <= usize::MAX,
        ensures
            final(self).wf(),
            final(self)@ == old(self)@ + sorted@,
            final(self).count() == old(self).count() + sorted@.len(),
    {
        let ghost all = sorted@;
        assert(old(self)@ + all.take(0) =~= old(self)@);
        for x in it: sorted.into_iter()
            invariant
                it.seq() == all,
                self.wf(),
                self@ == old(self)@ + all.take(it.index()),
                self.count() == old(self).count() + it.index(),
                old(self).count() + all.len() <= usize::MAX,
        {
            let ghost k = it.index();
            self.push(x);
            assert(all.take(k + 1) =~= all.take(k).push(x));
            assert(self@ =~= old(self)@ + all.take(k + 1));
        }
        assert(all.take(all.len() as int) =~= all);
    }
}

/// Whether `a` comes no later than `b` by `Ord`.
pub open spec fn ord_le<T: Ord>(a: T, b: T) -> bool {
    a.cmp_spec(&b) != Ordering::Greater
}

/// Whether `a` comes no later than `b` by `PartialOrd`: it is not greater.
pub open spec fn partial_le<T: PartialOrd>(a: T, b: T) -> bool {
    a.partial_cmp_spec(&b) != Some(Ordering::Greater)
}

/// Whether `T`'s `Ord` is a total order, as vstd states the laws.
pub open spec fn total_order<T: Ord>() -> bool {
    vstd::laws_cmp::obeys_cmp::<T>()
}

/// Whether `T`'s `PartialOrd` follows its laws and compares every two
/// values.
pub open spec fn total_partial_order<T: PartialOrd>() -> bool {
    &&& T::obeys_partial_cmp_spec()
    &&& vstd::laws_cmp::obeys_partial_cmp_spec_properties::<T>()
    &&& forall|x: T, y: T| #[trigger] x.partial_cmp_spec(&y) is Some
}

proof fn lemma_partial_le_total_preorder<T: PartialOrd>()
    requires
        vstd::laws_cmp::obeys_partial_cmp_spec_properties::<T>(),
        forall|x: T, y: T| #[trigger] x.partial_cmp_spec(&y) is Some,
    ensures
        total_preorder(|a: T, b: T| partial_le(a, b)),
{
    reveal(vstd::laws_cmp::obeys_partial_cmp_spec_properties);
    reveal(vstd::laws_eq::obeys_eq_spec_properties);
    let le = |a: T, b: T| partial_le(a, b);
    assert forall|a: T, b: T| #![trigger le(a, b)] le(a, b) || le(b, a) by {
        if a.partial_cmp_spec(&b) == Some(Ordering::Greater) {
            assert(b.partial_cmp_spec(&a) == Some(Ordering::Less));
        }
    }
    assert forall|a: T, b: T, c: T| #![trigger le(a, b), le(b, c)] le(a, b) && le(b, c) implies le(
        a,
        c,
    ) by {
        if a.partial_cmp_spec(&c) == Some(Ordering::Greater) {
            assert(c.partial_cmp_spec(&a) == Some(Ordering::Less));
            let ab = a.partial_cmp_spec(&b);
            let bc = b.partial_cmp_spec(&c);
            assert(ab is Some && bc is Some);
            if ab == Some(Ordering::Less) && bc == Some(Ordering::Less) {
                assert(a.partial_cmp_spec(&c) == Some(Ordering::Less));
            } else if ab == Some(Ordering::Equal) && bc == Some(Ordering::Less) {
                assert(b.partial_cmp_spec(&a) == Some(Ordering::Less));
                assert(a.partial_cmp_spec(&b) == Some(Ordering::Greater));
            } else if ab == Some(Ordering::Less) && bc == Some(Ordering::Equal) {
                assert(c.partial_cmp_spec(&b) == Some(Ordering::Less));
                assert(b.partial_cmp_spec(&c) == Some(Ordering::Greater));
            } else {
                assert(ab == Some(Ordering::Equal) && bc == Some(Ordering::Equal));
                assert(a.eq_spec(&b) && b.eq_spec(&c));
                assert(a.eq_spec(&c));
                assert(a.partial_cmp_spec(&c) == Some(Ordering::Equal));
            }
        }
    }
}

proof fn lemma_ord_le_total_preorder<T: Ord>()
    requires
        total_order::<T>(),
    ensures
        total_preorder(|a: T, b: T| ord_le(a, b)),
{
    reveal(vstd::laws_cmp::obeys_cmp_ord);
    assert forall|x: T, y: T| #[trigger] x.partial_cmp_spec(&y) is Some by {
        assert(x.partial_cmp_spec(&y) == Some(x.cmp_spec(&y)));
    }
    lemma_partial_le_total_preorder::<T>();
    let le1 = |a: T, b: T| partial_le(a, b);
    let le2 = |a: T, b: T| ord_le(a, b);
    assert forall|a: T, b: T| #[trigger] le2(a, b) == le1(a, b) by {
        assert(a.partial_cmp_spec(&b) == Some(a.cmp_spec(&b)));
    }
    assert forall|a: T, b: T| #![trigger le2(a, b)] le2(a, b) || le2(b, a) by {
        assert(le1(a, b) || le1(b, a));
    }
    assert forall|a: T, b: T, c: T| #![trigger le2(a, b), le2(b, c)] le2(a, b) && le2(b, c) implies le2(
        a,
        c,
    ) by {
        assert(le1(a, b) && le1(b, c));
    }
}

/// Whether a comparator answers each pair the same way every time.
pub open spec fn answers_consistently<T, F: Fn(&T, &T) -> Ordering>(f: F) -> bool {
    forall|a: &T, b: &T, o1: Ordering, o2: Ordering|
        f.ensures((a, b), o1) && f.ensures((a, b), o2) ==> o1 == o2
}

/// Whether a comparator puts `a` no later than `b`: it does not answer that
/// `a` is greater.
pub open spec fn comparator_le<T, F: Fn(&T, &T) -> Ordering>(f: F, a: T, b: T) -> bool {
    forall|o: Ordering| f.ensures((&a, &b), o) ==> o != Ordering::Greater
}

impl<T: Ord> ArrayList<T> {
    /// Sorts the items by `Ord`; the items put back are counted again in the
    /// reported length.
    pub fn sort_unstable(&mut self)
        requires
            old(self).wf(),
            total_order::<T>(),
            old(self).count() + old(self)@.len() <= usize::MAX,
        ensures
            final(self).wf(),
            final(self)@.to_multiset() == old(self)@.to_multiset(),
            sorted_by_le(final(self)@, |a: T, b: T| ord_le(a, b)),
            final(self).count() == old(self).count() + old(self)@.len(),
    {
        let items = self.take_items();
        let greater = |a: &T, b: &T| -> (r: bool)
            ensures
                T::obeys_cmp_spec() ==> r == !ord_le(*a, *b),
            {
                match a.cmp(b) {
                    Ordering::Greater => true,
                    _ => false,
                }
            };
        proof {
            lemma_ord_le_total_preorder::<T>();
            reveal(vstd::laws_cmp::obeys_cmp_ord);
            assert(T::obeys_cmp_spec());
        }
        let ghost le = |a: T, b: T| ord_le(a, b);
        assert forall|a: &T, b: &T, g: bool| #[trigger] greater.ensures((a, b), g) implies g == !le(
            *a,
            *b,
        ) by {}
        let sorted = insertion_sort(items, &greater, Ghost(le));
        self.push_all(sorted);
        assert(self@ =~= sorted@);
    }
}

impl<T: PartialOrd> ArrayList<T> {
    /// Sorts the items by `PartialOrd`, an item before the items greater
    /// than it; the items put back are counted again in the reported length.
    pub fn sort_default(&mut self)
        requires
            old(self).wf(),
            total_partial_order::<T>(),
            old(self).count() + old(self)@.len() <= usize::MAX,
        ensures
            final(self).wf(),
            final(self)@.to_multiset() == old(self)@.to_multiset(),
            sorted_by_le(final(self)@, |a: T, b: T| partial_le(a, b)),
            final(self).count() == old(self).count() + old(self)@.len(),
    {
        let items = self.take_items();
        let greater = |a: &T, b: &T| -> (r: bool)
            ensures
                T::obeys_partial_cmp_spec() ==> r == !partial_le(*a, *b),
            { a > b };
        proof {
            lemma_partial_le_total_preorder::<T>();
        }
        let ghost le = |a: T, b: T| partial_le(a, b);
        assert forall|a: &T, b: &T, g: bool| #[trigger] greater.ensures((a, b), g) implies g == !le(
            *a,
            *b,
        ) by {}
        let sorted = insertion_sort(items, &greater, Ghost(le));
        self.push_all(sorted);
        assert(self@ =~= sorted@);
    }
}

impl<T> ArrayList<T> {
    /// Sorts the items by the comparator `f`, which must answer each pair
    /// the same way every time and order the items; the items put back are
    /// counted again in the reported length.
    pub fn sort_unstable_by<F: Fn(&T, &T) -> Ordering>(&mut self, f: F)
        requires
            old(self).wf(),
            forall|a: &T, b: &T| #[trigger] f.requires((a, b)),
            answers_consistently(f),
            total_preorder(|a: T, b: T| comparator_le(f, a, b)),
            old(self).count() + old(self)@.len() <= usize::MAX,
        ensures
            final(self).wf(),
            final(self)@.to_multiset() == old(self)@.to_multiset(),
            sorted_by_le(final(self)@, |a: T, b: T| comparator_le(f, a, b)),
            final(self).count() == old(self).count() + old(self)@.len(),
    {
        let items = self.take_items();
        let fr = &f;
        let greater = |a: &T, b: &T| -> (r: bool)
            requires
                fr.requires((a, b)),
            ensures
                exists|o: Ordering| fr.ensures((a, b), o) && r == (o == Ordering::Greater),
            {
                let o = fr(a, b);
                match o {
                    Ordering::Greater => true,
                    _ => false,
                }
            };
        let ghost le = |a: T, b: T| comparator_le(f, a, b);
        assert forall|a: &T, b: &T, g: bool| #[trigger] greater.ensures((a, b), g) implies g == !le(
            *a,
            *b,
        ) by {
            let o = choose|o: Ordering| f.ensures((a, b), o) && g == (o == Ordering::Greater);
            assert(forall|o2: Ordering| f.ensures((a, b), o2) ==> o2 == o);
        }
        let sorted = insertion_sort(items, &greater, Ghost(le));
        self.push_all(sorted);
        assert(self@ =~= sorted@);
    }
}

} // verus!
