//! Singly linked lists: `List`, whose tails are shared between the lists
//! built on them and never change, and `ListMut`, which owns its nodes and
//! whose items can be changed in place.
use vstd::prelude::*;
use std::rc::Rc;

verus! {

/// A list whose nodes are shared: `cons` builds a new list on top of an old
/// one without copying it, and no list changes after it is made.
pub enum List<T> {
    Empty,
    Node(Rc<ListNode<T>>),
}

/// A node of a [`List`]: an item and the rest of the list.
pub struct ListNode<T> {
    value: T,
    next: List<T>,
}

impl<T> List<T> {
    /// The items, front first.
    pub closed spec fn items(&self) -> Seq<T>
        decreases self,
    {
        match self {
            List::Empty => Seq::empty(),
            List::Node(n) => seq![n.value] + n.next.items(),
        }
    }
}

impl<T> List<T> {
    /// A list of one node is its item followed by the rest; the empty list
    /// has no items.
    proof fn lemma_items_unfold(&self)
        ensures
            self matches List::Node(n) ==> self@ == seq![n.value] + n.next@ && self@.len() > 0
                && self@[0] == n.value && self@.drop_first() == n.next@,
            self is Empty ==> self@ == Seq::<T>::empty(),
    {
        match self {
            List::Node(n) => {
                assert((seq![n.value] + n.next@).drop_first() =~= n.next@);
            },
            List::Empty => {},
        }
    }
}

impl<T> View for List<T> {
    type V = Seq<T>;

    open spec fn view(&self) -> Seq<T> {
        self.items()
    }
}

impl<T> List<T> {
    /// Another handle on the same nodes.
    fn share(&self) -> (r: Self)
        ensures
            r@ == self@,
    {
        match self {
            List::Empty => List::Empty,
            List::Node(n) => List::Node(Rc::clone(n)),
        }
    }

    /// A list of one item.
    pub fn new(value: T) -> (r: Self)
        ensures
            r@ == seq![value],
    {
        let e: List<T> = List::Empty;
        proof {
            e.lemma_items_unfold();
        }
        let r = List::Node(Rc::new(ListNode { value, next: e }));
        proof {
            r.lemma_items_unfold();
        }
        assert(r@ =~= seq![value]);
        r
    }

    /// The empty list.
    pub fn empty() -> (r: Self)
        ensures
            r@ == Seq::<T>::empty(),
    {
        List::Empty
    }

    /// `value` in front of this list's items; this list is shared, not
    /// copied.
    pub fn cons(&self, value: T) -> (r: Self)
        ensures
            r@ == seq![value] + self@,
    {
        let r = List::Node(Rc::new(ListNode { value, next: self.share() }));
        proof {
            r.lemma_items_unfold();
        }
        r
    }

    /// The first item.
    pub fn car(&self) -> (r: &T)
        requires
            self@.len() > 0,
        ensures
            *r == self@[0],
    {
        proof {
            self.lemma_items_unfold();
        }
        match self {
            List::Node(n) => &n.value,
            List::Empty => vstd::pervasive::unreached(),
        }
    }

    /// The items after the first; the empty list stays empty.
    pub fn cdr(&self) -> (r: Self)
        ensures
            self@.len() == 0 ==> r@ == Seq::<T>::empty(),
            self@.len() > 0 ==> r@ == self@.drop_first(),
    {
        proof {
            self.lemma_items_unfold();
        }
        match self {
            List::Empty => List::Empty,
            List::Node(n) => n.next.share(),
        }
    }

    /// Item `index`, if there is one.
    pub fn get(&self, index: usize) -> (r: Option<&T>)
        ensures
            index < self@.len() ==> r == Some(&self@[index as int]),
            index >= self@.len() ==> r is None,
    {
        let mut i: usize = 0;
        let mut current: &List<T> = self;
        loop
            invariant
                i <= index,
                i <= self@.len(),
                current@ == self@.skip(i as int),
            decreases self@.len() - i,
        {
            proof {
                current.lemma_items_unfold();
            }
            match current {
                List::Empty => {
                    return None;
                },
                List::Node(n) => {
                    if i == index {
                        return Some(&n.value);
                    }
                    assert(n.next@ =~= self@.skip(i + 1));
                    i += 1;
                    current = &n.next;
                },
            }
        }
    }

    /// The number of items.
    pub fn len(&self) -> (r: usize)
        requires
            self@.len() <= usize::MAX,
        ensures
            r == self@.len(),
    {
        let mut out: usize = 0;
        let mut next: &List<T> = self;
        loop
            invariant
                out <= self@.len(),
                self@.len() <= usize::MAX,
                next@ == self@.skip(out as int),
            decreases self@.len() - out,
        {
            proof {
                next.lemma_items_unfold();
            }
            match next {
                List::Empty => {
                    return out;
                },
                List::Node(n) => {
                    assert(n.next@ =~= self@.skip(out + 1));
                    out += 1;
                    next = &n.next;
                },
            }
        }
    }

    pub fn is_empty(&self) -> (r: bool)
        ensures
            r == (self@.len() == 0),
    {
        match self {
            List::Empty => true,
            List::Node(_) => false,
        }
    }
}

impl<T: Clone> List<T> {
    /// A new list with clones of the items in reverse order.
    pub fn reverse(&self) -> (r: Self)
        ensures
            r@.len() == self@.len(),
            forall|i: int|
                0 <= i < self@.len() ==> cloned(
                    self@[self@.len() - 1 - i],
                    #[trigger] r@[i],
                ),
    {
        let mut base: List<T> = List::Empty;
        let ghost mut k: int = 0;
        let mut current: &List<T> = self;
        let ghost n = self@.len();
        loop
            invariant
                k <= n,
                n == self@.len(),
                current@ == self@.skip(k),
                base@.len() == k,
                forall|i: int| 0 <= i < k ==> cloned(self@[k - 1 - i], #[trigger] base@[i]),
            decreases n - k,
        {
            proof {
                current.lemma_items_unfold();
            }
            match current {
                List::Empty => {
                    return base;
                },
                List::Node(node) => {
                    let v = node.value.clone();
                    let ghost old_base = base@;
                    base = base.cons(v);
                    assert(base@ == seq![v] + old_base);
                    assert forall|i: int| 0 <= i < k + 1 implies cloned(
                        self@[k + 1 - 1 - i],
                        #[trigger] base@[i],
                    ) by {
                        if i > 0 {
                            assert(base@[i] == old_base[i - 1]);
                        }
                    }
                    assert(node.next@ =~= self@.skip(k + 1));
                    proof {
                        k = k + 1;
                    }
                    current = &node.next;
                },
            }
        }
    }
}

/// A list that owns its nodes; its items can be changed in place.
pub enum ListMut<T> {
    Empty,
    Node(Box<ListNodeMut<T>>),
}

/// A node of a [`ListMut`]: an item and the rest of the list.
pub struct ListNodeMut<T> {
    value: T,
    next: ListMut<T>,
}

impl<T> ListMut<T> {
    /// The items, front first.
    pub closed spec fn items(&self) -> Seq<T>
        decreases self,
    {
        match self {
            ListMut::Empty => Seq::empty(),
            ListMut::Node(n) => seq![n.value] + n.next.items(),
        }
    }

    proof fn lemma_items_unfold(&self)
        ensures
            self matches ListMut::Node(n) ==> self.items() == seq![n.value] + n.next.items()
                && self.items().len() > 0 && self.items()[0] == n.value && self.items().drop_first()
                == n.next.items(),
            self is Empty ==> self.items() == Seq::<T>::empty(),
    {
        match self {
            ListMut::Node(n) => {
                assert((seq![n.value] + n.next.items()).drop_first() =~= n.next.items());
            },
            ListMut::Empty => {},
        }
    }
}

impl<T> View for ListMut<T> {
    type V = Seq<T>;

    open spec fn view(&self) -> Seq<T> {
        self.items()
    }
}

impl<T> ListNodeMut<T> {
    /// The item of the node.
    pub closed spec fn item(&self) -> T {
        self.value
    }

    /// The items from this node on.
    pub closed spec fn items_from(&self) -> Seq<T> {
        seq![self.value] + self.next@
    }

    /// The item of the node.
    pub fn value(&self) -> (r: &T)
        ensures
            *r == self.item(),
    {
        &self.value
    }
}

impl<T> ListMut<T> {
    /// A list of one item.
    pub fn new(value: T) -> (r: Self)
        ensures
            r@ == seq![value],
    {
        let e: ListMut<T> = ListMut::Empty;
        proof {
            e.lemma_items_unfold();
        }
        let r = ListMut::Node(Box::new(ListNodeMut { value, next: e }));
        proof {
            r.lemma_items_unfold();
        }
        assert(r@ =~= seq![value]);
        r
    }

    /// The first item, to be changed in place.
    pub fn car(&mut self) -> (r: &mut T)
        requires
            old(self)@.len() > 0,
        ensures
            *r == old(self)@[0],
            final(self)@ == old(self)@.update(0, *final(r)),
    {
        proof {
            self.lemma_items_unfold();
        }
        match self {
            ListMut::Node(n) => {
                let r = &mut n.value;
                r
            },
            ListMut::Empty => vstd::pervasive::unreached(),
        }
    }

    /// The items after the first; the empty list stays empty.
    pub fn cdr(self) -> (r: Self)
        ensures
            self@.len() == 0 ==> r@ == Seq::<T>::empty(),
            self@.len() > 0 ==> r@ == self@.drop_first(),
    {
        proof {
            self.lemma_items_unfold();
        }
        match self {
            ListMut::Empty => ListMut::Empty,
            ListMut::Node(n) => n.next,
        }
    }

    /// Item `index`, if there is one.
    pub fn get(&self, index: usize) -> (r: Option<&T>)
        ensures
            index < self@.len() ==> r == Some(&self@[index as int]),
            index >= self@.len() ==> r is None,
        decreases self@.len(),
    {
        proof {
            self.lemma_items_unfold();
        }
        match self {
            ListMut::Empty => None,
            ListMut::Node(n) => {
                if index == 0 {
                    Some(&n.value)
                } else {
                    n.next.get(index - 1)
                }
            },
        }
    }

    /// Item `index`, to be changed in place, if there is one.
    pub fn get_mut(&mut self, index: usize) -> (r: Option<&mut T>)
        ensures
            index < old(self)@.len() ==> r is Some && *r->0 == old(self)@[index as int]
                && final(self)@ == old(self)@.update(index as int, *final(r->0)),
            index >= old(self)@.len() ==> r is None && final(self)@ == old(self)@,
        decreases old(self)@.len(),
    {
        proof {
            self.lemma_items_unfold();
        }
        match self {
            ListMut::Empty => None,
            ListMut::Node(n) => {
                if index == 0 {
                    Some(&mut n.value)
                } else {
                    n.next.get_mut(index - 1)
                }
            },
        }
    }

    /// Node `index`, if there is one.
    pub fn get_node(&self, index: usize) -> (r: Option<&ListNodeMut<T>>)
        ensures
            index < self@.len() ==> (r matches Some(n) && n.item() == self@[index as int]
                && n.items_from() == self@.skip(index as int)),
            index >= self@.len() ==> r is None,
        decreases self@.len(),
    {
        proof {
            self.lemma_items_unfold();
        }
        match self {
            ListMut::Empty => None,
            ListMut::Node(n) => {
                if index == 0 {
                    assert(self@.skip(0) =~= self@);
                    Some(&**n)
                } else {
                    proof {
                        if index < self@.len() {
                            assert(n.next@.skip(index - 1) =~= self@.skip(index as int));
                        }
                    }
                    n.next.get_node(index - 1)
                }
            },
        }
    }

    /// Node `index`, to be changed in place, if there is one.
    pub fn get_node_mut(&mut self, index: usize) -> (r: Option<&mut ListNodeMut<T>>)
        ensures
            index < old(self)@.len() ==> r is Some && r->0.item() == old(self)@[index as int]
                && r->0.items_from() == old(self)@.skip(index as int) && final(self)@ == old(
                self,
            )@.take(index as int) + final(r->0).items_from(),
            index >= old(self)@.len() ==> r is None && final(self)@ == old(self)@,
        decreases old(self)@.len(),
    {
        proof {
            self.lemma_items_unfold();
        }
        match self {
            ListMut::Empty => None,
            ListMut::Node(n) => {
                if index == 0 {
                    assert(old(self)@.skip(0) =~= old(self)@);
                    assert(old(self)@.take(0) =~= Seq::<T>::empty());
                    Some(&mut **n)
                } else {
                    let ghost tail = n.next@;
                    proof {
                        if index < old(self)@.len() {
                            assert(tail.skip(index - 1) =~= old(self)@.skip(index as int));
                        }
                    }
                    let r = n.next.get_node_mut(index - 1);
                    r
                }
            },
        }
    }

    /// The number of items.
    pub fn len(&self) -> (r: usize)
        requires
            self@.len() <= usize::MAX,
        ensures
            r == self@.len(),
    {
        let mut out: usize = 0;
        let mut next: &ListMut<T> = self;
        loop
            invariant
                out <= self@.len(),
                self@.len() <= usize::MAX,
                next@ == self@.skip(out as int),
            decreases self@.len() - out,
        {
            proof {
                next.lemma_items_unfold();
            }
            match next {
                ListMut::Empty => {
                    return out;
                },
                ListMut::Node(n) => {
                    assert(n.next@ =~= self@.skip(out + 1));
                    out += 1;
                    next = &n.next;
                },
            }
        }
    }

    pub fn is_empty(&self) -> (r: bool)
        ensures
            r == (self@.len() == 0),
    {
        proof {
            self.lemma_items_unfold();
        }
        match self {
            ListMut::Empty => true,
            ListMut::Node(_) => false,
        }
    }
}

impl<T: Clone> ListMut<T> {
    /// A copy of the list with clones of its items.
    pub fn duplicate(&self) -> (r: Self)
        ensures
            r@.len() == self@.len(),
            forall|i: int| 0 <= i < self@.len() ==> cloned(self@[i], #[trigger] r@[i]),
        decreases self@.len(),
    {
        proof {
            self.lemma_items_unfold();
        }
        match self {
            ListMut::Empty => ListMut::Empty,
            ListMut::Node(n) => {
                let v = n.value.clone();
                let rest = n.next.duplicate();
                let r = ListMut::Node(Box::new(ListNodeMut { value: v, next: rest }));
                proof {
                    r.lemma_items_unfold();
                    assert forall|i: int| 0 <= i < self@.len() implies cloned(
                        self@[i],
                        #[trigger] r@[i],
                    ) by {
                        if i > 0 {
                            assert(r@[i] == rest@[i - 1]);
                            assert(self@[i] == n.next@[i - 1]);
                        }
                    }
                }
                r
            },
        }
    }

    /// `value` in front of clones of this list's items.
    pub fn cons(&self, value: T) -> (r: Self)
        ensures
            r@.len() == self@.len() + 1,
            r@[0] == value,
            forall|i: int| 0 <= i < self@.len() ==> cloned(self@[i], #[trigger] r@[i + 1]),
    {
        let rest = self.duplicate();
        let r = ListMut::Node(Box::new(ListNodeMut { value, next: rest }));
        proof {
            r.lemma_items_unfold();
            assert forall|i: int| 0 <= i < self@.len() implies cloned(self@[i], #[trigger] r@[i + 1]) by {
                assert(r@[i + 1] == rest@[i]);
            }
        }
        r
    }

    /// A new list with clones of the items in reverse order.
    pub fn reverse(&self) -> (r: Self)
        ensures
            r@.len() == self@.len(),
            forall|i: int|
                0 <= i < self@.len() ==> cloned(
                    self@[self@.len() - 1 - i],
                    #[trigger] r@[i],
                ),
    {
        let mut base: ListMut<T> = ListMut::Empty;
        let ghost mut k: int = 0;
        let mut current: &ListMut<T> = self;
        let ghost n = self@.len();
        proof {
            base.lemma_items_unfold();
        }
        loop
            invariant
                0 <= k <= n,
                n == self@.len(),
                current@ == self@.skip(k),
                base@.len() == k,
                forall|i: int| 0 <= i < k ==> cloned(self@[k - 1 - i], #[trigger] base@[i]),
            decreases n - k,
        {
            proof {
                current.lemma_items_unfold();
            }
            match current {
                ListMut::Empty => {
                    return base;
                },
                ListMut::Node(node) => {
                    let v = node.value.clone();
                    let ghost old_base = base@;
                    base = ListMut::Node(Box::new(ListNodeMut { value: v, next: base }));
                    proof {
                        base.lemma_items_unfold();
                    }
                    assert forall|i: int| 0 <= i < k + 1 implies cloned(
                        self@[k + 1 - 1 - i],
                        #[trigger] base@[i],
                    ) by {
                        if i > 0 {
                            assert(base@[i] == old_base[i - 1]);
                        }
                    }
                    assert(node.next@ =~= self@.skip(k + 1));
                    proof {
                        k = k + 1;
                    }
                    current = &node.next;
                },
            }
        }
    }

    /// A shared list with clones of the items, in the same order.
    pub fn as_const(&self) -> (r: List<T>)
        ensures
            r@.len() == self@.len(),
            forall|i: int| 0 <= i < self@.len() ==> cloned(self@[i], #[trigger] r@[i]),
        decreases self@.len(),
    {
        proof {
            self.lemma_items_unfold();
        }
        match self {
            ListMut::Empty => List::empty(),
            ListMut::Node(n) => {
                let v = n.value.clone();
                let rest = n.next.as_const();
                let r = rest.cons(v);
                assert forall|i: int| 0 <= i < self@.len() implies cloned(self@[i], #[trigger] r@[i]) by {
                    if i > 0 {
                        assert(r@[i] == rest@[i - 1]);
                        assert(self@[i] == n.next@[i - 1]);
                    }
                }
                r
            },
        }
    }
}

/// The first item of a list built by `cons` is the item put in front, and
/// the rest is the list it was built on.
pub proof fn law_car_cdr_of_cons<T>(items: Seq<T>, value: T)
    ensures
        (seq![value] + items)[0] == value,
        (seq![value] + items).drop_first() == items,
        (seq![value] + items).len() == items.len() + 1,
{
    assert((seq![value] + items).drop_first() =~= items);
}

/// Whether `r` holds clones of the items of `items` in the reverse order,
/// as `reverse` makes it.
pub open spec fn reverses<T: Clone>(items: Seq<T>, r: Seq<T>) -> bool {
    &&& r.len() == items.len()
    &&& forall|i: int| 0 <= i < items.len() ==> cloned(items[items.len() - 1 - i], #[trigger] r[i])
}

/// Reversing a list twice gives its items back in their order, each as a
/// clone of a clone of the item; where cloning keeps values, the very items.
pub proof fn law_reverse_twice<T: Clone>(items: Seq<T>, once: Seq<T>, twice: Seq<T>)
    requires
        reverses(items, once),
        reverses(once, twice),
    ensures
        twice.len() == items.len(),
        forall|i: int| 0 <= i < items.len() ==> cloned(items[i], #[trigger] once[items.len() - 1 - i])
            && cloned(once[items.len() - 1 - i], twice[i]),
        (forall|x: T, y: T| #[trigger] cloned(x, y) ==> x == y) ==> twice == items,
{
    let n = items.len();
    assert forall|i: int| 0 <= i < n implies cloned(items[i], #[trigger] once[n - 1 - i]) && cloned(
        once[n - 1 - i],
        twice[i],
    ) by {
        assert(items[n - 1 - (n - 1 - i)] == items[i]);
    }
    if forall|x: T, y: T| #[trigger] cloned(x, y) ==> x == y {
        assert forall|i: int| 0 <= i < n implies twice[i] == items[i] by {
            assert(cloned(items[i], once[n - 1 - i]));
            assert(cloned(once[n - 1 - i], twice[i]));
        }
        assert(twice =~= items);
    }
}

} // verus!
