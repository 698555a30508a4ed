//! The drawing device's bookkeeping: which programs are attached under which
//! numbers, which one is on screen, and which of the commands a program sent
//! make up its next frame.
use vstd::prelude::*;
use std::collections::BTreeMap;
use crate::screen::Cmd;
use vstd::std_specs::iter::IteratorSpec;

verus! {

broadcast use {vstd::std_specs::btree::group_btree_axioms, vstd::laws_cmp::group_laws_cmp};

/// The most programs the device holds before it refuses new ones: a new one
/// is refused once more than this many are attached.
pub const MAX_PROCESSES: usize = 10;

/// The process on screen after the switch keys are read: with the control
/// key down, each key `k` (of the first `k` keys) that is down and whose
/// process `k + 1` is attached selects that process, the last one winning.
pub open spec fn switched(active: u64, ctrl: bool, keys: Seq<bool>, attached: Set<u64>, k: int) -> u64
    decreases k,
{
    if k <= 0 {
        active
    } else {
        let prev = switched(active, ctrl, keys, attached, k - 1);
        if ctrl && keys[k - 1] && attached.contains(k as u64) {
            k as u64
        } else {
            prev
        }
    }
}

/// The attached programs `P`, each under its number, and the number of the
/// one on screen.
pub struct ProcessTable<P> {
    processes: BTreeMap<u64, P>,
    active_process: u64,
}

impl<P> ProcessTable<P> {
    /// The programs by number.
    pub closed spec fn procs(&self) -> Map<u64, P> {
        self.processes@
    }

    /// The number of the program on screen.
    pub closed spec fn active(&self) -> u64 {
        self.active_process
    }

    /// No program attached; `active` is the number shown first.
    pub fn new(active: u64) -> (r: Self)
        ensures
            r.procs() == Map::<u64, P>::empty(),
            r.active() == active,
    {
        ProcessTable { processes: BTreeMap::new(), active_process: active }
    }

    /// The number of the program on screen.
    pub fn active_process(&self) -> (r: u64)
        ensures
            r == self.active(),
    {
        self.active_process
    }

    /// Attaches `proc` under the least free number from 1 and returns the
    /// number; where more than `MAX_PROCESSES` are attached, `proc` is
    /// refused and 0 is returned.
    pub fn spawn_process(&mut self, proc: P) -> (r: u64)
        ensures
            final(self).active() == old(self).active(),
            old(self).procs().dom().len() > MAX_PROCESSES ==> r == 0 && final(self).procs()
                == old(self).procs(),
            old(self).procs().dom().len() <= MAX_PROCESSES ==> {
                &&& 1 <= r
                &&& !old(self).procs().contains_key(r)
                &&& forall|j: u64| 1 <= j < r ==> old(self).procs().contains_key(j)
                &&& final(self).procs() == old(self).procs().insert(r, proc)
            },
    {
        if self.processes.len() > MAX_PROCESSES {
            return 0;
        }
        let ghost dom = self.processes@.dom();
        proof {
            lemma_free_below(dom);
        }
        let mut i: u64 = 1;
        loop
            invariant
                1 <= i <= MAX_PROCESSES + 2,
                self.processes@ == old(self).procs(),
                self.active_process == old(self).active(),
                dom == self.processes@.dom(),
                dom.len() <= MAX_PROCESSES,
                exists|j: u64| i <= j <= MAX_PROCESSES + 1 && !dom.contains(j),
                forall|j: u64| 1 <= j < i ==> dom.contains(j),
            decreases MAX_PROCESSES + 2 - i,
        {
            if !self.processes.contains_key(&i) {
                self.processes.insert(i, proc);
                return i;
            }
            i = i + 1;
        }
    }

    /// Reads the switch keys: with `ctrl` down, `keys[k]` down selects the
    /// program `k + 1` where it is attached (the keys 1 to 9, then 0 for
    /// program 10); the last key that selects wins.
    pub fn switch_active(&mut self, ctrl: bool, keys: [bool; 10])
        ensures
            final(self).procs() == old(self).procs(),
            final(self).active() == switched(old(self).active(), ctrl, keys@, old(self).procs().dom(), 10),
    {
        if !ctrl {
            proof {
                lemma_switch_without_ctrl(self.active_process, keys@, self.processes@.dom(), 10);
            }
            return;
        }
        let ghost start = self.active_process;
        let mut k: usize = 0;
        while k < 10
            invariant
                ctrl,
                k <= 10,
                keys@.len() == 10,
                self.processes@ == old(self).procs(),
                self.active_process == switched(start, ctrl, keys@, self.processes@.dom(), k as int),
                start == old(self).active(),
            decreases 10 - k,
        {
            let n: u64 = k as u64 + 1;
            if keys[k] && self.processes.contains_key(&n) {
                self.active_process = n;
            }
            k = k + 1;
        }
    }

    /// The numbers of the attached programs, least first.
    pub fn ids(&self) -> (r: Vec<u64>)
        ensures
            r@.to_set() == self.procs().dom(),
            r@.no_duplicates(),
    {
        let mut out: Vec<u64> = Vec::new();
        let ghost ks = vstd::std_specs::btree::spec_keys_iter(&self.processes).remaining();
        let ghost mut n: int = 0;
        for k in it: self.processes.keys()
            invariant
                it.seq() == ks,
                n == it.index(),
                n <= ks.len(),
                out@.len() == n,
                forall|i: int| 0 <= i < n ==> #[trigger] out@[i] == *ks[i],
        {
            proof {
                assert(k == ks[n]);
                n = n + 1;
            }
            out.push(*k);
        }
        proof {
            assert(n == ks.len());
            assert(out@ =~= ks.unref());
        }
        out
    }

    /// The program under `id`, to be changed in place, if there is one.
    pub fn process_mut(&mut self, id: u64) -> (r: Option<&mut P>)
        ensures
            old(self).procs().contains_key(id) ==> r is Some && *r->0 == old(self).procs()[id]
                && final(self).procs() == old(self).procs().insert(id, *final(r->0)),
            !old(self).procs().contains_key(id) ==> r is None && final(self).procs() == old(
                self,
            ).procs(),
            final(self).active() == old(self).active(),
    {
        crate::id_alloc::btree_get_mut(&mut self.processes, id)
    }

    /// Detaches every program.
    pub fn clear(&mut self)
        ensures
            final(self).procs() == Map::<u64, P>::empty(),
            final(self).active() == old(self).active(),
    {
        self.processes.clear();
    }
}

/// Without the control key the program on screen stays.
proof fn lemma_switch_without_ctrl(active: u64, keys: Seq<bool>, attached: Set<u64>, k: int)
    ensures
        switched(active, false, keys, attached, k) == active,
    decreases k,
{
    if k > 0 {
        lemma_switch_without_ctrl(active, keys, attached, k - 1);
    }
}

/// With at most `MAX_PROCESSES` numbers taken, one of 1 to
/// `MAX_PROCESSES + 1` is free.
proof fn lemma_free_below(dom: Set<u64>)
    requires
        dom.finite(),
        dom.len() <= MAX_PROCESSES,
    ensures
        exists|j: u64| 1 <= j <= MAX_PROCESSES + 1 && !dom.contains(j),
{
    let range = Set::<u64>::new(|j: u64| 1 <= j <= MAX_PROCESSES + 1);
    <u64 as vstd::set_lib::FiniteRange>::range_properties(1, (MAX_PROCESSES + 2) as u64);
    assert(range == <u64 as vstd::set_lib::FiniteRange>::range_set(1, (MAX_PROCESSES + 2) as u64));
    if !(exists|j: u64| 1 <= j <= MAX_PROCESSES + 1 && !dom.contains(j)) {
        assert(range.subset_of(dom));
        vstd::set_lib::lemma_len_subset(range, dom);
    }
}

/// Whether `c` ends a frame.
pub open spec fn ends_frame(c: Cmd) -> bool {
    c is EndDrawing
}

/// How many of the commands `cmds` make up the next frame: those up to and
/// including the first `EndDrawing`; `None` where no frame is complete yet.
pub fn frame_length(cmds: &[Cmd]) -> (r: Option<usize>)
    ensures
        match r {
            Some(n) => {
                &&& 1 <= n <= cmds@.len()
                &&& ends_frame(cmds@[n - 1])
                &&& forall|i: int| 0 <= i < n - 1 ==> !ends_frame(#[trigger] cmds@[i])
            },
            None => forall|i: int| 0 <= i < cmds@.len() ==> !ends_frame(#[trigger] cmds@[i]),
        },
{
    let mut i: usize = 0;
    while i < cmds.len()
        invariant
            i <= cmds@.len(),
            forall|j: int| 0 <= j < i ==> !ends_frame(#[trigger] cmds@[j]),
        decreases cmds@.len() - i,
    {
        if matches!(cmds[i], Cmd::EndDrawing) {
            return Some(i + 1);
        }
        i = i + 1;
    }
    None
}

/// The switch keys only ever put an attached program on screen, and only
/// with the control key down: otherwise the program on screen stays.
pub proof fn law_switch_selects_attached(active: u64, ctrl: bool, keys: Seq<bool>, attached: Set<u64>, k: int)
    requires
        keys.len() == 10,
        0 <= k <= keys.len(),
    ensures
        switched(active, ctrl, keys, attached, k) == active || (ctrl && attached.contains(
            switched(active, ctrl, keys, attached, k),
        ) && 1 <= switched(active, ctrl, keys, attached, k) <= k),
    decreases k,
{
    if k > 0 {
        law_switch_selects_attached(active, ctrl, keys, attached, k - 1);
    }
}

} // verus!
