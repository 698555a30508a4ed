//! A block allocator with four size classes, and the owned and shared
//! buffers handed out by the allocation functions.
use vstd::prelude::*;
use vstd::layout::size_of;
use vstd::string::StringSliceAdditionalSpecFns;
use std::rc::Rc;

verus! {

/// The four block sizes of the heap, in 64-bit words.
#[derive(PartialEq, Eq, Structural, Clone, Copy, Debug)]
pub enum SizeClass {
    /// 1024 blocks of 4 words.
    Small,
    /// 256 blocks of 64 words.
    Medium,
    /// 64 blocks of 256 words.
    Large,
    /// 8 blocks of 1024 words.
    Page,
}

/// How many blocks a class has.
pub open spec fn class_blocks(c: SizeClass) -> nat {
    match c {
        SizeClass::Small => 1024,
        SizeClass::Medium => 256,
        SizeClass::Large => 64,
        SizeClass::Page => 8,
    }
}

/// How many words a block of a class holds.
pub open spec fn class_words(c: SizeClass) -> nat {
    match c {
        SizeClass::Small => 4,
        SizeClass::Medium => 64,
        SizeClass::Large => 256,
        SizeClass::Page => 1024,
    }
}

/// The class that a request for `count` words starts from.
pub open spec fn class_for(count: usize) -> Option<SizeClass> {
    if count > 8192 {
        None
    } else if count > 1024 {
        Some(SizeClass::Page)
    } else if count > 256 {
        Some(SizeClass::Large)
    } else if count > 32 {
        Some(SizeClass::Medium)
    } else {
        Some(SizeClass::Small)
    }
}

/// The class that a request moves on to when a class is full.
pub open spec fn next_class(c: SizeClass) -> Option<SizeClass> {
    match c {
        SizeClass::Small => Some(SizeClass::Medium),
        SizeClass::Medium => Some(SizeClass::Large),
        SizeClass::Large => Some(SizeClass::Page),
        SizeClass::Page => None,
    }
}

pub open spec fn class_rank(c: SizeClass) -> nat {
    match c {
        SizeClass::Small => 3,
        SizeClass::Medium => 2,
        SizeClass::Large => 1,
        SizeClass::Page => 0,
    }
}

/// A block of the heap: its class and its number within the class.
#[derive(PartialEq, Eq, Structural, Clone, Copy, Debug)]
pub struct Block {
    pub class: SizeClass,
    pub index: usize,
}

/// The first unused block of a class, by its marks.
pub open spec fn first_free(marks: Seq<u8>) -> Option<int>
    decreases marks.len(),
{
    if marks.len() == 0 {
        None
    } else {
        match first_free(marks.drop_last()) {
            Some(i) => Some(i),
            None => if marks.last() == 0 {
                Some(marks.len() - 1)
            } else {
                None
            },
        }
    }
}

/// A heap of fixed blocks in four size classes; a block is in use while its
/// mark is not 0.
pub struct Heap {
    smol_marks: Vec<u8>,
    medium_marks: Vec<u8>,
    large_marks: Vec<u8>,
    page_marks: Vec<u8>,
}

impl Heap {
    /// The marks of the blocks of class `c`.
    pub closed spec fn marks(&self, c: SizeClass) -> Seq<u8> {
        match c {
            SizeClass::Small => self.smol_marks@,
            SizeClass::Medium => self.medium_marks@,
            SizeClass::Large => self.large_marks@,
            SizeClass::Page => self.page_marks@,
        }
    }

    /// Each class has its number of blocks.
    pub closed spec fn wf(&self) -> bool {
        &&& self.smol_marks@.len() == 1024
        &&& self.medium_marks@.len() == 256
        &&& self.large_marks@.len() == 64
        &&& self.page_marks@.len() == 8
    }

    /// Each class has its number of blocks.
    pub proof fn lemma_wf_marks(&self, c: SizeClass)
        requires
            self.wf(),
        ensures
            self.marks(c).len() == class_blocks(c),
    {
    }

    /// The block that a request starting at class `c` gets: the first unused
    /// block of `c`, or of the next class while classes are full.
    pub open spec fn alloc_from(&self, c: SizeClass) -> Option<Block>
        decreases class_rank(c),
    {
        match first_free(self.marks(c)) {
            Some(i) => Some(Block { class: c, index: i as usize }),
            None => match next_class(c) {
                Some(n) => self.alloc_from(n),
                None => None,
            },
        }
    }

    /// The block that a request for `count` words gets.
    pub open spec fn spec_alloc(&self, count: usize) -> Option<Block> {
        match class_for(count) {
            Some(c) => self.alloc_from(c),
            None => None,
        }
    }

    /// A heap with every block unused.
    pub fn new() -> (r: Self)
        ensures
            r.wf(),
            forall|c: SizeClass, i: int|
                0 <= i < class_blocks(c) ==> #[trigger] r.marks(c)[i] == 0,
    {
        let r = Heap {
            smol_marks: vec![0u8; 1024],
            medium_marks: vec![0u8; 256],
            large_marks: vec![0u8; 64],
            page_marks: vec![0u8; 8],
        };
        assert forall|c: SizeClass, i: int| 0 <= i < class_blocks(c) implies #[trigger] r.marks(c)[i] == 0 by {
            match c {
                SizeClass::Small => assert(cloned(0u8, r.smol_marks@[i])),
                SizeClass::Medium => assert(cloned(0u8, r.medium_marks@[i])),
                SizeClass::Large => assert(cloned(0u8, r.large_marks@[i])),
                SizeClass::Page => assert(cloned(0u8, r.page_marks@[i])),
            }
        }
        r
    }

    /// Heaps with the same marks give the same blocks.
    pub proof fn lemma_alloc_from_marks(&self, other: &Heap, c: SizeClass)
        requires
            forall|d: SizeClass| #[trigger] self.marks(d) == other.marks(d),
        ensures
            self.alloc_from(c) == other.alloc_from(c),
        decreases class_rank(c),
    {
        assert(self.marks(c) == other.marks(c));
        match next_class(c) {
            Some(n) => self.lemma_alloc_from_marks(other, n),
            None => {},
        }
    }

    /// The block that a request gets is a block of the heap that was unused.
    pub proof fn lemma_alloc_from_unused(&self, c: SizeClass)
        requires
            self.wf(),
        ensures
            self.alloc_from(c) matches Some(b) ==> 0 <= b.index < self.marks(b.class).len()
                && self.marks(b.class)[b.index as int] == 0,
        decreases class_rank(c),
    {
        lemma_first_free(self.marks(c));
        self.lemma_wf_marks(c);
        match first_free(self.marks(c)) {
            Some(i) => {},
            None => match next_class(c) {
                Some(n) => self.lemma_alloc_from_unused(n),
                None => {},
            },
        }
    }

    /// Takes the block that a request for `count` words gets, as `spec_alloc`
    /// says, and marks it in use; `None` when there is none.
    pub fn allocate(&mut self, count: usize) -> (r: Option<Block>)
        requires
            old(self).wf(),
        ensures
            final(self).wf(),
            r == old(self).spec_alloc(count),
            r matches Some(b) ==> final(self).marks(b.class) == old(self).marks(b.class).update(
                b.index as int,
                1,
            ),
            forall|c: SizeClass|
                !(r matches Some(b) && b.class == c) ==> #[trigger] final(self).marks(c) == old(
                    self,
                ).marks(c),
    {
        let mut want = count;
        loop
            invariant
                self.wf(),
                self.smol_marks@ == old(self).smol_marks@,
                self.medium_marks@ == old(self).medium_marks@,
                self.large_marks@ == old(self).large_marks@,
                self.page_marks@ == old(self).page_marks@,
                old(self).spec_alloc(count) == self.spec_alloc(want),
            decreases if want <= 8193 {
                8193 - want
            } else {
                0
            },
        {
            let ghost before = *self;
            if want > 1024 * 8 {
                assert(self.spec_alloc(want) is None);
                return None;
            } else if want > 1024 {
                match take_first_free(&mut self.page_marks) {
                    Some(i) => {
                        return Some(Block { class: SizeClass::Page, index: i });
                    },
                    None => {
                        want = 1024 * 8 + 1;
                    },
                }
            } else if want > 256 {
                match take_first_free(&mut self.large_marks) {
                    Some(i) => {
                        return Some(Block { class: SizeClass::Large, index: i });
                    },
                    None => {
                        want = 1025;
                    },
                }
            } else if want > 32 {
                match take_first_free(&mut self.medium_marks) {
                    Some(i) => {
                        return Some(Block { class: SizeClass::Medium, index: i });
                    },
                    None => {
                        want = 257;
                    },
                }
            } else {
                match take_first_free(&mut self.smol_marks) {
                    Some(i) => {
                        return Some(Block { class: SizeClass::Small, index: i });
                    },
                    None => {
                        want = 33;
                    },
                }
            }
            proof {
                assert forall|d: SizeClass| #[trigger] before.marks(d) == self.marks(d) by {}
                match class_for(want) {
                    Some(c) => before.lemma_alloc_from_marks(self, c),
                    None => {},
                }
            }
        }
    }

    /// Marks `block` unused again. A block outside the heap is left alone.
    pub fn free(&mut self, block: Block)
        requires
            old(self).wf(),
            block.index < class_blocks(block.class) ==> old(self).marks(block.class)[block.index as int]
                != 0,
        ensures
            final(self).wf(),
            block.index < class_blocks(block.class) ==> final(self).marks(block.class) == old(
                self,
            ).marks(block.class).update(block.index as int, 0),
            block.index >= class_blocks(block.class) ==> final(self).marks(block.class) == old(
                self,
            ).marks(block.class),
            forall|c: SizeClass| c != block.class ==> #[trigger] final(self).marks(c) == old(self).marks(c),
    {
        let i = block.index;
        match block.class {
            SizeClass::Page => if i < self.page_marks.len() {
                self.page_marks.set(i, 0);
            },
            SizeClass::Large => if i < self.large_marks.len() {
                self.large_marks.set(i, 0);
            },
            SizeClass::Medium => if i < self.medium_marks.len() {
                self.medium_marks.set(i, 0);
            },
            SizeClass::Small => if i < self.smol_marks.len() {
                self.smol_marks.set(i, 0);
            },
        }
    }
}

/// The first unused block by `marks` is within the marks and unused.
pub proof fn lemma_first_free(marks: Seq<u8>)
    ensures
        first_free(marks) matches Some(i) ==> 0 <= i < marks.len() && marks[i] == 0,
        first_free(marks) is None ==> forall|j: int| 0 <= j < marks.len() ==> marks[j] != 0,
    decreases marks.len(),
{
    if marks.len() > 0 {
        lemma_first_free(marks.drop_last());
        assert forall|j: int| 0 <= j < marks.len() - 1 implies marks[j] == marks.drop_last()[j] by {}
    }
}

/// Marks the first unused block in `marks` as used and returns it.
fn take_first_free(marks: &mut Vec<u8>) -> (r: Option<usize>)
    ensures
        r == match first_free(old(marks)@) {
            Some(i) => Some(i as usize),
            None => None::<usize>,
        },
        r matches Some(i) ==> i < old(marks)@.len() && final(marks)@ == old(marks)@.update(i as int, 1),
        r is None ==> final(marks)@ == old(marks)@,
        final(marks)@.len() == old(marks)@.len(),
{
    let mut k: usize = 0;
    while k < marks.len()
        invariant
            marks@ == old(marks)@,
            k <= marks@.len(),
            first_free(marks@.take(k as int)) is None,
        decreases marks@.len() - k,
    {
        assert(marks@.take(k + 1).drop_last() =~= marks@.take(k as int));
        if marks[k] == 0 {
            assert(first_free(marks@.take(k + 1)) == Some(k as int));
            proof {
                lemma_first_free_prefix(marks@, k + 1);
            }
            marks.set(k, 1);
            return Some(k);
        }
        k += 1;
    }
    assert(marks@.take(k as int) =~= marks@);
    None
}

/// Once a prefix holds an unused block, the whole does, at the same place.
proof fn lemma_first_free_prefix(marks: Seq<u8>, k: int)
    requires
        0 <= k <= marks.len(),
        first_free(marks.take(k)) is Some,
    ensures
        first_free(marks) == first_free(marks.take(k)),
    decreases marks.len() - k,
{
    if k < marks.len() {
        assert(marks.take(k + 1).drop_last() =~= marks.take(k));
        lemma_first_free_prefix(marks, k + 1);
    } else {
        assert(marks.take(k) =~= marks);
    }
}

/// The words asked of the heap for `count` values of `T`.
pub open spec fn words_for<T>(count: nat) -> nat {
    size_of::<T>() * count
}

/// The words asked of the heap for a shared run of `count` values of `T`:
/// a count of handles, then the values.
pub open spec fn shared_words_for<T>(count: nat) -> nat {
    size_of::<usize>() + size_of::<T>() * count
}

impl Heap {
    /// Whether `next` is this heap after a request for `count` words that
    /// got `got`: the block that `spec_alloc` gives, which is marked in use,
    /// with nothing else changed.
    pub open spec fn allocated(self, count: usize, next: Heap, got: Option<Block>) -> bool {
        &&& next.wf()
        &&& got == self.spec_alloc(count)
        &&& forall|c: SizeClass|
            #[trigger] next.marks(c) == if got is Some && got->0.class == c {
                self.marks(c).update(got->0.index as int, 1)
            } else {
                self.marks(c)
            }
    }

    /// Whether `next` is this heap with `block`, if any, marked unused again.
    pub open spec fn released(self, block: Option<Block>, next: Heap) -> bool {
        &&& next.wf()
        &&& forall|c: SizeClass|
            #[trigger] next.marks(c) == if block is Some && block->0.class == c
                && block->0.index < class_blocks(c) {
                self.marks(c).update(block->0.index as int, 0)
            } else {
                self.marks(c)
            }
    }

    /// Whether `block`, if any, may be given back: it is marked in use, or
    /// lies outside the heap.
    pub open spec fn may_release(self, block: Option<Block>) -> bool {
        block matches Some(b) ==> (b.index < class_blocks(b.class) ==> self.marks(b.class)[b.index as int]
            != 0)
    }

    /// Asks for `count` words, as `allocate` does, stated as `allocated`.
    fn take(&mut self, count: usize) -> (r: Option<Block>)
        requires
            old(self).wf(),
        ensures
            old(self).allocated(count, *final(self), r),
    {
        self.allocate(count)
    }

    /// Gives `block`, if any, back, as `free` does, stated as `released`.
    fn give_back(&mut self, block: Option<Block>)
        requires
            old(self).wf(),
            old(self).may_release(block),
        ensures
            old(self).released(block, *final(self)),
    {
        match block {
            Some(b) => self.free(b),
            None => {},
        }
    }
}

/// A nullable owned buffer of values from a heap: null, or one value, or a
/// run of values, with the block of the heap that holds them.
pub struct Ptr<T> {
    value: Option<Vec<T>>,
    block: Option<Block>,
}

impl<T> View for Ptr<T> {
    type V = Option<Seq<T>>;

    closed spec fn view(&self) -> Option<Seq<T>> {
        match self.value {
            Some(v) => Some(v@),
            None => None,
        }
    }
}

impl<T> Ptr<T> {
    /// The block of the heap that holds the values; `None` for null.
    pub closed spec fn block(&self) -> Option<Block> {
        self.block
    }

    /// Takes a block of `heap` for `value`, as `spec_alloc` says for its
    /// size, and puts `value` in it; null when the heap has no such block.
    pub fn new(heap: &mut Heap, value: T) -> (r: Self)
        requires
            old(heap).wf(),
        ensures
            old(heap).allocated(size_of::<T>() as usize, *final(heap), r.block()),
            r.block() is Some ==> r@ == Some(seq![value]),
            r.block() is None ==> r@ is None,
    {
        let got = heap.take(core::mem::size_of::<T>());
        match got {
            Some(b) => {
                let mut v = Vec::new();
                v.push(value);
                assert(v@ =~= seq![value]);
                Ptr { value: Some(v), block: Some(b) }
            },
            None => Ptr { value: None, block: None },
        }
    }

    /// The null buffer.
    pub fn null() -> (r: Self)
        ensures
            r@ is None,
            r.block() is None,
    {
        Ptr { value: None, block: None }
    }

    pub fn is_null(&self) -> (r: bool)
        ensures
            r == self@ is None,
    {
        self.value.is_none()
    }

    /// The null run of values.
    pub fn null_slice() -> (r: Self)
        ensures
            r@ is None,
            r.block() is None,
    {
        Ptr { value: None, block: None }
    }

    /// The number of values; 0 for null.
    pub fn len(&self) -> (r: usize)
        ensures
            r == match self@ {
                Some(s) => s.len(),
                None => 0,
            },
    {
        match &self.value {
            Some(v) => v.len(),
            None => 0,
        }
    }

    pub fn is_empty(&self) -> (r: bool)
        ensures
            r == match self@ {
                Some(s) => s.len() == 0,
                None => true,
            },
    {
        self.len() == 0
    }

    /// The values; the buffer must not be null.
    pub fn as_slice(&self) -> (r: &[T])
        requires
            self@ is Some,
        ensures
            Some(r@) == self@,
    {
        match &self.value {
            Some(v) => v.as_slice(),
            None => {
                assert(false);
                &[]
            },
        }
    }

    /// The values, to be changed in place; the buffer must not be null.
    pub fn as_slice_mut(&mut self) -> (r: &mut [T])
        requires
            old(self)@ is Some,
        ensures
            r@ == old(self)@->0,
            final(self)@ == Some(final(r)@),
            final(self).block() == old(self).block(),
    {
        match &mut self.value {
            Some(v) => v.as_mut_slice(),
            None => {
                assert(false);
                &mut []
            },
        }
    }

    /// Replaces the value at `index`, which must be inside the buffer.
    pub fn set(&mut self, index: usize, value: T)
        requires
            old(self)@ matches Some(s) && index < s.len(),
        ensures
            final(self)@ == Some(old(self)@->0.update(index as int, value)),
            final(self).block() == old(self).block(),
    {
        match &mut self.value {
            Some(v) => {
                v.set(index, value);
            },
            None => {},
        }
    }

    /// Drops the values and gives the block back to `heap`.
    pub fn release(self, heap: &mut Heap)
        requires
            old(heap).wf(),
            old(heap).may_release(self.block()),
        ensures
            old(heap).released(self.block(), *final(heap)),
    {
        heap.give_back(self.block);
    }
}

impl<T: Clone> Ptr<T> {
    /// A buffer of `heap` that holds a clone of `value`, as `new` makes it.
    pub fn from_ref(heap: &mut Heap, value: &T) -> (r: Self)
        requires
            old(heap).wf(),
        ensures
            old(heap).allocated(size_of::<T>() as usize, *final(heap), r.block()),
            r.block() is Some ==> (r@ matches Some(s) && s.len() == 1 && cloned(*value, s[0])),
            r.block() is None ==> r@ is None,
    {
        Ptr::new(heap, value.clone())
    }

    /// Takes a block of `heap` for `count` values, as `spec_alloc` says for
    /// their size, and fills it with clones of `value`; null when the heap
    /// has no such block.
    pub fn new_slice(heap: &mut Heap, value: T, count: usize) -> (r: Self)
        requires
            old(heap).wf(),
            words_for::<T>(count as nat) <= usize::MAX,
        ensures
            old(heap).allocated(words_for::<T>(count as nat) as usize, *final(heap), r.block()),
            r.block() is Some ==> (r@ matches Some(s) && s.len() == count && forall|i: int|
                0 <= i < count ==> cloned(value, #[trigger] s[i])),
            r.block() is None ==> r@ is None,
    {
        let got = heap.take(core::mem::size_of::<T>() * count);
        match got {
            Some(b) => Ptr { value: Some(vec![value; count]), block: Some(b) },
            None => Ptr { value: None, block: None },
        }
    }

    /// Takes a block of `heap` for the values of `value`, as `spec_alloc`
    /// says for their size, and fills it with their clones; null when the
    /// heap has no such block.
    pub fn from_slice(heap: &mut Heap, value: &[T]) -> (r: Self)
        requires
            old(heap).wf(),
            words_for::<T>(value@.len()) <= usize::MAX,
        ensures
            old(heap).allocated(words_for::<T>(value@.len()) as usize, *final(heap), r.block()),
            r.block() is Some ==> (r@ matches Some(s) && s.len() == value@.len() && forall|i: int|
                0 <= i < value@.len() ==> cloned(value@[i], #[trigger] s[i])),
            r.block() is None ==> r@ is None,
    {
        let got = heap.take(core::mem::size_of::<T>() * value.len());
        match got {
            Some(b) => Ptr { value: Some(clones_of(value)), block: Some(b) },
            None => Ptr { value: None, block: None },
        }
    }
}

/// Clones of the values of `value`, in order.
fn clones_of<T: Clone>(value: &[T]) -> (r: Vec<T>)
    ensures
        r@.len() == value@.len(),
        forall|i: int| 0 <= i < value@.len() ==> cloned(value@[i], #[trigger] r@[i]),
{
    let mut v: Vec<T> = Vec::new();
    let mut k: usize = 0;
    while k < value.len()
        invariant
            k <= value@.len(),
            v@.len() == k,
            forall|i: int| 0 <= i < k ==> cloned(value@[i], #[trigger] v@[i]),
        decreases value@.len() - k,
    {
        v.push(value[k].clone());
        k += 1;
    }
    v
}

/// A nullable shared buffer of values from a heap, whose handles share the
/// same values and block; the last handle given back frees the block.
pub struct SharedPtr<T> {
    value: Option<Rc<Vec<T>>>,
    block: Option<Block>,
}

impl<T> View for SharedPtr<T> {
    type V = Option<Seq<T>>;

    closed spec fn view(&self) -> Option<Seq<T>> {
        match self.value {
            Some(v) => Some(v@),
            None => None,
        }
    }
}

impl<T> SharedPtr<T> {
    /// The block of the heap that holds the values; `None` for null.
    pub closed spec fn block(&self) -> Option<Block> {
        self.block
    }

    /// Takes a block of `heap` for a count of handles and `value`, as
    /// `spec_alloc` says for their size, and puts `value` in it; null when
    /// the heap has no such block.
    pub fn new(heap: &mut Heap, value: T) -> (r: Self)
        requires
            old(heap).wf(),
        ensures
            old(heap).allocated(size_of::<(usize, T)>() as usize, *final(heap), r.block()),
            r.block() is Some ==> r@ == Some(seq![value]),
            r.block() is None ==> r@ is None,
    {
        let got = heap.take(core::mem::size_of::<(usize, T)>());
        match got {
            Some(b) => {
                let mut v = Vec::new();
                v.push(value);
                assert(v@ =~= seq![value]);
                SharedPtr { value: Some(Rc::new(v)), block: Some(b) }
            },
            None => SharedPtr { value: None, block: None },
        }
    }

    /// The null shared buffer.
    pub fn null() -> (r: Self)
        ensures
            r@ is None,
            r.block() is None,
    {
        SharedPtr { value: None, block: None }
    }

    pub fn is_null(&self) -> (r: bool)
        ensures
            r == self@ is None,
    {
        self.value.is_none()
    }

    /// The null run of values.
    pub fn null_slice() -> (r: Self)
        ensures
            r@ is None,
            r.block() is None,
    {
        SharedPtr { value: None, block: None }
    }

    /// The number of values; 0 for null.
    pub fn len(&self) -> (r: usize)
        ensures
            r == match self@ {
                Some(s) => s.len(),
                None => 0,
            },
    {
        match &self.value {
            Some(v) => v.len(),
            None => 0,
        }
    }

    pub fn is_empty(&self) -> (r: bool)
        ensures
            r == match self@ {
                Some(s) => s.len() == 0,
                None => true,
            },
    {
        self.len() == 0
    }

    /// The values; the buffer must not be null.
    pub fn as_slice(&self) -> (r: &[T])
        requires
            self@ is Some,
        ensures
            Some(r@) == self@,
    {
        match &self.value {
            Some(v) => v.as_slice(),
            None => {
                assert(false);
                &[]
            },
        }
    }

    /// Another handle on the same values and block.
    pub fn share(&self) -> (r: Self)
        ensures
            r@ == self@,
            r.block() == self.block(),
    {
        match &self.value {
            Some(v) => SharedPtr { value: Some(Rc::clone(v)), block: self.block },
            None => SharedPtr { value: None, block: self.block },
        }
    }

    /// Drops this handle; where it is the last one on its values, the block
    /// goes back to `heap`. Which handle is the last is not tracked here, so
    /// either outcome is allowed.
    pub fn release(self, heap: &mut Heap)
        requires
            old(heap).wf(),
            old(heap).may_release(self.block()),
        ensures
            old(heap).released(self.block(), *final(heap)) || (final(heap).wf() && forall|c: SizeClass|
                #[trigger] final(heap).marks(c) == old(heap).marks(c)),
    {
        match self.value {
            Some(rc) => match Rc::try_unwrap(rc) {
                Ok(_) => heap.give_back(self.block),
                Err(_) => {},
            },
            None => heap.give_back(self.block),
        }
    }
}

impl<T: Clone> SharedPtr<T> {
    /// Takes a block of `heap` for a count of handles and `count` values, as
    /// `spec_alloc` says for their size, and fills it with clones of
    /// `value`; null when the heap has no such block.
    pub fn new_slice(heap: &mut Heap, value: T, count: usize) -> (r: Self)
        requires
            old(heap).wf(),
            shared_words_for::<T>(count as nat) <= usize::MAX,
        ensures
            old(heap).allocated(shared_words_for::<T>(count as nat) as usize, *final(heap), r.block()),
            r.block() is Some ==> (r@ matches Some(s) && s.len() == count && forall|i: int|
                0 <= i < count ==> cloned(value, #[trigger] s[i])),
            r.block() is None ==> r@ is None,
    {
        let got = heap.take(core::mem::size_of::<usize>() + core::mem::size_of::<T>() * count);
        match got {
            Some(b) => SharedPtr { value: Some(Rc::new(vec![value; count])), block: Some(b) },
            None => SharedPtr { value: None, block: None },
        }
    }

    /// A shared run of clones of the values of `value` in a block of `heap`
    /// for a count of handles and the values, as `spec_alloc` says for their
    /// size; null, asking nothing of the heap, when `value` is empty, and
    /// null when the heap has no such block.
    pub fn from_slice(heap: &mut Heap, value: &[T]) -> (r: Self)
        requires
            old(heap).wf(),
            shared_words_for::<T>(value@.len()) <= usize::MAX,
        ensures
            value@.len() == 0 ==> r@ is None && r.block() is None && *final(heap) == *old(heap),
            value@.len() > 0 ==> old(heap).allocated(
                shared_words_for::<T>(value@.len()) as usize,
                *final(heap),
                r.block(),
            ),
            value@.len() > 0 && r.block() is Some ==> (r@ matches Some(s) && s.len() == value@.len()
                && forall|i: int| 0 <= i < value@.len() ==> cloned(value@[i], #[trigger] s[i])),
            r.block() is None ==> r@ is None,
    {
        if value.len() == 0 {
            return SharedPtr::null_slice();
        }
        let got = heap.take(core::mem::size_of::<usize>() + core::mem::size_of::<T>() * value.len());
        match got {
            Some(b) => SharedPtr { value: Some(Rc::new(clones_of(value))), block: Some(b) },
            None => SharedPtr { value: None, block: None },
        }
    }
}

/// A nullable shared string from a heap.
pub struct CharPtr {
    ptr: Option<Rc<String>>,
    block: Option<Block>,
}

impl View for CharPtr {
    type V = Option<Seq<char>>;

    closed spec fn view(&self) -> Option<Seq<char>> {
        match self.ptr {
            Some(s) => Some(s@),
            None => None,
        }
    }
}

impl CharPtr {
    /// The block of the heap that holds the text; `None` for null.
    pub closed spec fn block(&self) -> Option<Block> {
        self.block
    }

    /// A shared copy of `st` in a block of `heap` for a count of handles and
    /// the bytes of `st`, as `spec_alloc` says for their size; null, asking
    /// nothing of the heap, when `st` is empty, and null when the heap has
    /// no such block.
    pub fn new(heap: &mut Heap, st: &str) -> (r: Self)
        requires
            old(heap).wf(),
            shared_words_for::<u8>(st.spec_bytes().len()) <= usize::MAX,
        ensures
            st@.len() == 0 ==> r@ is None && *final(heap) == *old(heap),
            st@.len() > 0 ==> old(heap).allocated(
                shared_words_for::<u8>(st.spec_bytes().len()) as usize,
                *final(heap),
                r.block(),
            ),
            st@.len() > 0 && r.block() is Some ==> r@ == Some(st@),
            r.block() is None ==> r@ is None,
    {
        if st.is_empty() {
            return CharPtr::null();
        }
        let got = heap.take(core::mem::size_of::<usize>() + core::mem::size_of::<u8>() * st.len());
        match got {
            Some(b) => CharPtr { ptr: Some(Rc::new(st.to_owned())), block: Some(b) },
            None => CharPtr::null(),
        }
    }

    pub fn is_null(&self) -> (r: bool)
        ensures
            r == self@ is None,
    {
        self.ptr.is_none()
    }

    /// The null string.
    pub fn null() -> (r: Self)
        ensures
            r@ is None,
            r.block() is None,
    {
        CharPtr { ptr: None, block: None }
    }

    /// The text; the string must not be null.
    pub fn as_str(&self) -> (r: &str)
        requires
            self@ is Some,
        ensures
            Some(r@) == self@,
    {
        match &self.ptr {
            Some(s) => s.as_str(),
            None => {
                assert(false);
                ""
            },
        }
    }
}

/// A buffer of `heap` that holds `value`, as `Ptr::new` makes it.
pub fn malloc<T>(heap: &mut Heap, value: T) -> (r: Ptr<T>)
    requires
        old(heap).wf(),
    ensures
        old(heap).allocated(size_of::<T>() as usize, *final(heap), r.block()),
        r.block() is Some ==> r@ == Some(seq![value]),
        r.block() is None ==> r@ is None,
{
    Ptr::new(heap, value)
}

/// A run of `count` clones of a clone of `value`, as `Ptr::new_slice` makes
/// it.
pub fn calloc<T: Clone>(heap: &mut Heap, value: &T, count: usize) -> (r: Ptr<T>)
    requires
        old(heap).wf(),
        words_for::<T>(count as nat) <= usize::MAX,
    ensures
        old(heap).allocated(words_for::<T>(count as nat) as usize, *final(heap), r.block()),
        r.block() is Some ==> (r@ matches Some(s) && s.len() == count && exists|c: T|
            cloned(*value, c) && forall|i: int| 0 <= i < count ==> cloned(c, #[trigger] s[i])),
        r.block() is None ==> r@ is None,
{
    let c = value.clone();
    assert(cloned(*value, c));
    let r = Ptr::new_slice(heap, c, count);
    assert(r.block() is Some ==> forall|i: int| 0 <= i < count ==> cloned(c, #[trigger] r@->0[i]));
    r
}

/// A shared buffer of `heap` that holds `value`, as `SharedPtr::new` makes
/// it.
pub fn malloc_shared<T>(heap: &mut Heap, value: T) -> (r: SharedPtr<T>)
    requires
        old(heap).wf(),
    ensures
        old(heap).allocated(size_of::<(usize, T)>() as usize, *final(heap), r.block()),
        r.block() is Some ==> r@ == Some(seq![value]),
        r.block() is None ==> r@ is None,
{
    SharedPtr::new(heap, value)
}

/// A shared run of `count` clones of a clone of `value`, as
/// `SharedPtr::new_slice` makes it.
pub fn calloc_shared<T: Clone>(heap: &mut Heap, value: &T, count: usize) -> (r: SharedPtr<T>)
    requires
        old(heap).wf(),
        shared_words_for::<T>(count as nat) <= usize::MAX,
    ensures
        old(heap).allocated(shared_words_for::<T>(count as nat) as usize, *final(heap), r.block()),
        r.block() is Some ==> (r@ matches Some(s) && s.len() == count && exists|c: T|
            cloned(*value, c) && forall|i: int| 0 <= i < count ==> cloned(c, #[trigger] s[i])),
        r.block() is None ==> r@ is None,
{
    let c = value.clone();
    assert(cloned(*value, c));
    let r = SharedPtr::new_slice(heap, c, count);
    assert(r.block() is Some ==> forall|i: int| 0 <= i < count ==> cloned(c, #[trigger] r@->0[i]));
    r
}

/// A run of `count` values of `heap`, as `Ptr::new_slice` makes it from a
/// clone of the first value of `value`, that then takes clones of the values
/// of `value` at its front; null, asking nothing of the heap, when `value`
/// is empty. Where neither is empty, the heap must have a block for it.
pub fn realloc<T: Clone>(heap: &mut Heap, value: &[T], count: usize) -> (r: Ptr<T>)
    requires
        old(heap).wf(),
        words_for::<T>(count as nat) <= usize::MAX,
        value@.len() > 0 && count > 0 ==> old(heap).spec_alloc(words_for::<T>(count as nat) as usize) is Some,
    ensures
        value@.len() == 0 ==> r@ is None && *final(heap) == *old(heap),
        value@.len() > 0 ==> old(heap).allocated(
            words_for::<T>(count as nat) as usize,
            *final(heap),
            r.block(),
        ),
        r.block() is None ==> r@ is None,
        value@.len() > 0 && r.block() is Some ==> (r@ matches Some(s) && s.len() == count && (forall|i: int|
            0 <= i < count && i < value@.len() ==> cloned(value@[i], #[trigger] s[i])) && exists|
            c: T,
        |
            cloned(value@[0], c) && forall|i: int|
                value@.len() <= i < count ==> cloned(c, #[trigger] s[i])),
{
    if value.len() == 0 {
        return Ptr::null_slice();
    }
    let got = heap.take(core::mem::size_of::<T>() * count);
    match got {
        Some(b) => Ptr { value: Some(grown(value, count)), block: Some(b) },
        None => Ptr { value: None, block: None },
    }
}

/// `count` values that start with clones of the values of `value` and are
/// filled up with clones of a clone of its first value.
fn grown<T: Clone>(value: &[T], count: usize) -> (r: Vec<T>)
    requires
        value@.len() > 0,
    ensures
        r@.len() == count,
        forall|i: int| 0 <= i < count && i < value@.len() ==> cloned(value@[i], #[trigger] r@[i]),
        exists|c: T| cloned(value@[0], c) && forall|i: int| value@.len() <= i < count ==> cloned(c, #[trigger] r@[i]),
{
    let first = value[0].clone();
    assert(cloned(value@[0], first));
    let mut out: Vec<T> = vec![first; count];
    let l = if value.len() > count {
        count
    } else {
        value.len()
    };
    let ghost filled = out@;
    let mut i: usize = 0;
    while i < l
        invariant
            i <= l,
            l <= count,
            l <= value@.len(),
            out@.len() == count,
            forall|j: int| 0 <= j < i ==> cloned(value@[j], #[trigger] out@[j]),
            forall|j: int| i <= j < count ==> #[trigger] out@[j] == filled[j],
            filled.len() == count,
            forall|j: int| 0 <= j < count ==> cloned(first, #[trigger] filled[j]),
        decreases l - i,
    {
        out.set(i, value[i].clone());
        i += 1;
    }
    assert forall|j: int| value@.len() <= j < count implies cloned(first, #[trigger] out@[j]) by {
        assert(out@[j] == filled[j]);
    }
    out
}

/// A shared run of `count` values that starts with clones of the values of
/// `value` and is filled up with clones of its first value, in a block of
/// `heap` for the `count` values, as `spec_alloc` says for their size; null,
/// asking nothing of the heap, when `value` is empty, and null when the heap
/// has no such block. `value` must not hold more than `count` values.
pub fn realloc_shared<T: Clone>(heap: &mut Heap, value: &[T], count: usize) -> (r: SharedPtr<T>)
    requires
        old(heap).wf(),
        value@.len() <= count,
        words_for::<T>(count as nat) <= usize::MAX,
    ensures
        value@.len() == 0 ==> r@ is None && *final(heap) == *old(heap),
        value@.len() > 0 ==> old(heap).allocated(
            words_for::<T>(count as nat) as usize,
            *final(heap),
            r.block(),
        ),
        r.block() is None ==> r@ is None,
        value@.len() > 0 && r.block() is Some ==> (r@ matches Some(s) && s.len() == count && (forall|i: int|
            0 <= i < value@.len() ==> cloned(value@[i], #[trigger] s[i])) && exists|c: T|
            cloned(value@[0], c) && forall|i: int|
                value@.len() <= i < count ==> cloned(c, #[trigger] s[i])),
{
    if value.len() == 0 {
        return SharedPtr::null_slice();
    }
    let got = heap.take(core::mem::size_of::<T>() * count);
    match got {
        Some(b) => SharedPtr { value: Some(Rc::new(grown(value, count))), block: Some(b) },
        None => SharedPtr { value: None, block: None },
    }
}

/// Freeing the block that an allocation handed out leaves every class's
/// marks as they were before the allocation; the block is in use in between,
/// so the free is allowed.
pub proof fn law_free_undoes_allocate(h: Heap, count: usize)
    requires
        h.wf(),
        h.spec_alloc(count) is Some,
    ensures
        ({
            let b = h.spec_alloc(count)->0;
            let taken = h.marks(b.class).update(b.index as int, 1);
            &&& b.index < class_blocks(b.class)
            &&& h.marks(b.class)[b.index as int] == 0
            &&& taken[b.index as int] != 0
            &&& taken.update(b.index as int, 0) == h.marks(b.class)
        }),
{
    let b = h.spec_alloc(count)->0;
    h.lemma_alloc_from_unused(class_for(count)->0);
    h.lemma_wf_marks(b.class);
    assert(h.marks(b.class).update(b.index as int, 1).update(b.index as int, 0) =~= h.marks(
        b.class,
    ));
}

/// A buffer's block given back leaves the heap's marks as they were before
/// the buffer was allocated, whether or not the allocation got a block.
pub proof fn law_release_undoes_allocation(h: Heap, count: usize, mid: Heap, got: Option<Block>, last: Heap)
    requires
        h.wf(),
        h.allocated(count, mid, got),
        mid.released(got, last),
    ensures
        forall|c: SizeClass| #[trigger] last.marks(c) == h.marks(c),
{
    if got is Some {
        let b = got->0;
        h.lemma_alloc_from_unused(class_for(count)->0);
        h.lemma_wf_marks(b.class);
        assert(h.marks(b.class).update(b.index as int, 1).update(b.index as int, 0) =~= h.marks(b.class));
        assert forall|c: SizeClass| #[trigger] last.marks(c) == h.marks(c) by {
            assert(mid.marks(c) == if c == b.class { h.marks(c).update(b.index as int, 1) } else { h.marks(c) });
        }
    }
}

} // verus!
