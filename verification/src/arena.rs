//! The bookkeeping of a bump allocator: blocks of bytes handed out in
//! order, each aligned as asked, with a new, larger block chained on when a
//! block is full.
use vstd::prelude::*;

verus! {

/// The size of a block of an arena, and the unit that larger blocks are
/// made of.
pub const BLOCK: usize = 16777216;

/// The size of a block made for a request of `size` bytes: one unit, or the
/// least number of units that holds `size`.
pub open spec fn sized_capacity(size: nat) -> nat {
    if size < BLOCK {
        BLOCK as nat
    } else {
        (((size + BLOCK - 1) / (BLOCK as int)) * BLOCK) as nat
    }
}

/// `offset` rounded up to a multiple of `align`.
pub open spec fn aligned(offset: nat, align: nat) -> nat {
    if offset % align == 0 {
        offset
    } else {
        (offset + align - offset % align) as nat
    }
}

/// Where an allocation went: the block, counted along the chain from the
/// first, and the offset in it.
#[derive(PartialEq, Eq, Structural, Clone, Copy, Debug)]
pub struct Placement {
    pub block: usize,
    pub offset: usize,
}

/// A chain of blocks: each block's size and how much of it is used.
pub struct Arena {
    cap: usize,
    next_ptr: usize,
    next: Option<Box<Arena>>,
}

impl Arena {
    /// The blocks of the chain, from this one on, as (size, used).
    pub closed spec fn blocks(&self) -> Seq<(nat, nat)>
        decreases self,
    {
        seq![(self.cap as nat, self.next_ptr as nat)] + match self.next {
            Some(n) => n.blocks(),
            None => Seq::empty(),
        }
    }

    proof fn lemma_blocks_len(&self)
        ensures
            self.blocks().len() >= 1,
            self.next is Some ==> self.blocks().len() >= 2,
    {
        match self.next {
            Some(n) => {
                assert(n.blocks().len() >= 1);
            },
            None => {},
        }
    }

    /// Every block uses less than its size, and no block is larger than
    /// half the address space.
    pub closed spec fn wf(&self) -> bool
        decreases self,
    {
        &&& self.next_ptr < self.cap
        &&& self.cap <= usize::MAX / 2
        &&& match self.next {
            Some(n) => n.wf(),
            None => true,
        }
    }

    /// An arena of one empty block of one unit.
    pub fn new() -> (r: Self)
        ensures
            r.wf(),
            r.blocks() == seq![(BLOCK as nat, 0nat)],
    {
        let r = Arena { cap: BLOCK, next_ptr: 0, next: None };
        assert(r.blocks() =~= seq![(BLOCK as nat, 0nat)]);
        r
    }

    /// An arena of one empty block that holds `size` bytes.
    pub fn new_sized(size: usize) -> (r: Self)
        requires
            size <= usize::MAX / 4,
        ensures
            r.wf(),
            r.blocks() == seq![(sized_capacity(size as nat), 0nat)],
    {
        let count = if BLOCK > size {
            BLOCK
        } else {
            let mut tmp: usize = BLOCK;
            while tmp < size
                invariant
                    BLOCK <= tmp,
                    tmp % BLOCK == 0,
                    size <= usize::MAX / 4,
                    tmp < size + BLOCK,
                    (size + BLOCK - 1) / (BLOCK as int) >= (tmp as int) / (BLOCK as int),
                decreases size + BLOCK - tmp,
            {
                assert((tmp + BLOCK) % (BLOCK as int) == 0) by (nonlinear_arith)
                    requires
                        (tmp as int) % (BLOCK as int) == 0,
                ;
                tmp += BLOCK;
            }
            proof {
                lemma_round_up(size as nat, tmp as nat);
            }
            tmp
        };
        let r = Arena { cap: count, next_ptr: 0, next: None };
        assert(r.blocks() =~= seq![(sized_capacity(size as nat), 0nat)]);
        r
    }

    /// The bytes used in all blocks together.
    pub open spec fn used(blocks: Seq<(nat, nat)>) -> nat
        decreases blocks.len(),
    {
        if blocks.len() == 0 {
            0
        } else {
            blocks[0].1 + Self::used(blocks.drop_first())
        }
    }

    /// The bytes used in all blocks together.
    pub fn debug_mem_usage(&self) -> (r: usize)
        requires
            self.wf(),
            Self::used(self.blocks()) <= usize::MAX,
        ensures
            r == Self::used(self.blocks()),
        decreases self.blocks().len(),
    {
        let ghost b = self.blocks();
        assert(b.drop_first() =~= match self.next {
            Some(n) => n.blocks(),
            None => Seq::empty(),
        });
        assert(Self::used(b) == self.next_ptr + Self::used(b.drop_first()));
        assert(Self::used(Seq::<(nat, nat)>::empty()) == 0);
        match &self.next {
            Some(n) => {
                let rest = n.debug_mem_usage();
                self.next_ptr + rest
            },
            None => self.next_ptr,
        }
    }

    /// Hands out `count` bytes aligned to `align`: in this block after what
    /// is used, rounded up to `align`, where they fit with room to spare;
    /// else in the next block, made for `count` bytes when there is none.
    pub fn alloc_bytes(&mut self, count: usize, align: usize) -> (r: Placement)
        requires
            old(self).wf(),
            old(self).blocks().len() < usize::MAX - 1,
            0 < align <= usize::MAX / 8,
            count <= usize::MAX / 8,
            count == 0 || count % BLOCK != 0,
        ensures
            final(self).wf(),
            r.offset as nat % align as nat == 0,
            final(self).blocks().len() >= old(self).blocks().len(),
            final(self).blocks().len() <= old(self).blocks().len() + 1,
            r.block < final(self).blocks().len(),
            r.offset + count == final(self).blocks()[r.block as int].1,
            forall|i: int|
                0 <= i < old(self).blocks().len() && i != r.block ==> #[trigger] final(self).blocks()[i]
                    == old(self).blocks()[i],
            forall|i: int|
                0 <= i < r.block ==> aligned(old(self).blocks()[i].1, align as nat) + count
                    >= old(self).blocks()[i].0,
            r.block < old(self).blocks().len() ==> aligned(
                old(self).blocks()[r.block as int].1,
                align as nat,
            ) == r.offset && final(self).blocks()[r.block as int].0 == old(self).blocks()[r.block as int].0,
            r.block == old(self).blocks().len() ==> r.offset == 0 && final(self).blocks()[r.block as int].0
                == sized_capacity(count as nat),
        decreases old(self).blocks().len(),
    {
        let mut nxt = self.next_ptr;
        if nxt % align != 0 {
            nxt = nxt + align - nxt % align;
        }
        proof {
            assert(nxt as nat == aligned(self.next_ptr as nat, align as nat));
            if self.next_ptr % align != 0 {
                lemma_aligned(self.next_ptr as nat, align as nat);
            }
        }
        let ghost b0 = old(self).blocks();
        if nxt + count >= self.cap {
            match self.next.take() {
                Some(mut n) => {
                    let ghost nb = n.blocks();
                    assert(b0 =~= seq![(self.cap as nat, self.next_ptr as nat)] + nb);
                    let p = n.alloc_bytes(count, align);
                    self.next = Some(n);
                    let ghost fb = self.blocks();
                    assert(fb =~= seq![(self.cap as nat, self.next_ptr as nat)] + n.blocks());
                    Placement { block: p.block + 1, offset: p.offset }
                },
                None => {
                    let mut fresh = Arena::new_sized(count);
                    proof {
                        lemma_sized_fits(count as nat);
                    }
                    proof {
                        assert(fresh.blocks()[0] == (fresh.cap as nat, fresh.next_ptr as nat));
                        fresh.lemma_blocks_len();
                        assert(fresh.next is None);
                        assert(fresh.cap <= usize::MAX / 2);
                    }
                    fresh.next_ptr = count;
                    assert(fresh.wf());
                    let p = Placement { block: 0, offset: 0 };
                    assert(p.offset as nat % align as nat == 0);
                    assert(fresh.blocks() =~= seq![(sized_capacity(count as nat), count as nat)]);
                    self.next = Some(Box::new(fresh));
                    assert(b0 =~= seq![(self.cap as nat, self.next_ptr as nat)]);
                    assert(self.blocks() =~= seq![(self.cap as nat, self.next_ptr as nat)] + fresh.blocks());
                    Placement { block: p.block + 1, offset: p.offset }
                },
            }
        } else {
            self.next_ptr = nxt + count;
            assert(self.blocks() =~= b0.update(0, (self.cap as nat, (nxt + count) as nat)));
            assert(nxt as nat % align as nat == 0);
            Placement { block: 0, offset: nxt }
        }
    }
}

proof fn lemma_aligned(offset: nat, align: nat)
    requires
        align > 0,
        offset % align != 0,
    ensures
        (offset + align - offset % align) % (align as int) == 0,
        offset < offset + align - offset % align <= offset + align,
{
    assert((offset + align - offset % align) % (align as int) == 0) by (nonlinear_arith)
        requires
            align > 0,
    {
        vstd::arithmetic::div_mod::lemma_fundamental_div_mod(offset as int, align as int);
        vstd::arithmetic::div_mod::lemma_mod_multiples_basic(offset as int / align as int + 1, align as int);
    }
}

proof fn lemma_round_up(size: nat, tmp: nat)
    requires
        BLOCK <= tmp,
        (tmp as int) % (BLOCK as int) == 0,
        size <= tmp < size + BLOCK,
        BLOCK <= size,
    ensures
        tmp == sized_capacity(size),
{
    let q = (tmp as int) / (BLOCK as int);
    assert(tmp == q * BLOCK) by (nonlinear_arith)
        requires
            (tmp as int) % (BLOCK as int) == 0,
            q == (tmp as int) / (BLOCK as int),
    ;
    assert((size + BLOCK - 1) / (BLOCK as int) == q) by (nonlinear_arith)
        requires
            tmp == q * BLOCK,
            size <= tmp < size + BLOCK,
    ;
}

/// A new block made for a request that is not a positive multiple of the
/// unit holds it with room to spare.
proof fn lemma_sized_fits(count: nat)
    requires
        count == 0 || (count as int) % (BLOCK as int) != 0,
    ensures
        count < sized_capacity(count),
{
    if count >= BLOCK {
        let q = (count + BLOCK - 1) / (BLOCK as int);
        assert(q * BLOCK > count) by (nonlinear_arith)
            requires
                q == (count + BLOCK - 1) / (BLOCK as int),
                (count as int) % (BLOCK as int) != 0,
        ;
    }
}

} // verus!
