//! A runtime of processes that talk by messages: the handles through which a
//! process and the runtime exchange messages, and the runtime's routing of
//! messages, requests and spawns between processes.
//!
//! A process is a task that the caller runs; the runtime here keeps its
//! identifier and its handle and decides where each message goes. A spawn
//! request names the task to start by a token of the caller's.
use vstd::prelude::*;
use vstd::std_specs::iter::IteratorSpec;
use vstd::rwlock::RwLock;
use std::collections::{BTreeMap, VecDeque};
use std::sync::Arc;
use crate::ids::ProcessId;
use crate::id_alloc::{has_free_from, least_free_from};
use crate::sync::AnyValue;

verus! {

broadcast use {vstd::std_specs::btree::group_btree_axioms, vstd::laws_cmp::group_laws_cmp};

/// A message between a process and the runtime.
pub enum Message {
    /// The sending process has finished.
    ProcessExit,
    /// Data for process `to` from process `from`.
    Message { to: ProcessId, from: ProcessId, data: Vec<u8> },
    /// Start the task with this token as a new process.
    SpawnProcess(u64),
    /// Start the task with this token as a new process under a name.
    SpawnProcessNamed(u64, String),
    /// The identifier asked for.
    ReturnedId(ProcessId),
    /// The process asked about does not exist.
    ProcessDoesNotExist,
    RequestNamedProcess(String),
    /// End a process.
    KillProcess(ProcessId),
    /// The identifier of the process with this name.
    GetNamedProcess(String),
    /// Whether a process exists.
    DoesProcessExist(ProcessId),
}

/// A request or response slot: the message and whether it is an answer.
pub type Slot = Option<(bool, Message)>;

/// The step of taking a request out of a response slot: a pending request
/// is taken; an answer, or nothing, stays.
pub open spec fn take_request_step(slot: Slot) -> (Slot, Option<Message>) {
    match slot {
        Some((false, m)) => (None, Some(m)),
        _ => (slot, None),
    }
}

/// The step of taking an answer out of a request slot: an answer is taken;
/// a pending request, or nothing, stays.
pub open spec fn take_answer_step(slot: Slot) -> (Slot, Option<Message>) {
    match slot {
        Some((true, m)) => (None, Some(m)),
        _ => (slot, None),
    }
}

fn take_request(slot: Slot) -> (r: (Slot, Option<Message>))
    ensures
        r == take_request_step(slot),
{
    match slot {
        Some((false, m)) => (None, Some(m)),
        other => (other, None),
    }
}

fn take_answer(slot: Slot) -> (r: (Slot, Option<Message>))
    ensures
        r == take_answer_step(slot),
{
    match slot {
        Some((true, m)) => (None, Some(m)),
        other => (other, None),
    }
}

/// One side of the link between a process and the runtime: a queue of
/// messages to the other side, a queue from it, the slot of requests that
/// this side makes, and the slot of requests made of it.
pub struct RuntimeHandleInner {
    sending: Arc<RwLock<VecDeque<Message>, AnyValue>>,
    recieving: Arc<RwLock<VecDeque<Message>, AnyValue>>,
    request: Arc<RwLock<Slot, AnyValue>>,
    response: Arc<RwLock<Slot, AnyValue>>,
    invalid: bool,
}

impl RuntimeHandleInner {
    pub closed spec fn outbox(&self) -> RwLock<VecDeque<Message>, AnyValue> {
        *self.sending
    }

    pub closed spec fn inbox(&self) -> RwLock<VecDeque<Message>, AnyValue> {
        *self.recieving
    }

    pub closed spec fn request_slot(&self) -> RwLock<Slot, AnyValue> {
        *self.request
    }

    pub closed spec fn response_slot(&self) -> RwLock<Slot, AnyValue> {
        *self.response
    }

    /// Whether this handle is linked to nothing.
    pub closed spec fn is_invalid(&self) -> bool {
        self.invalid
    }

    /// A handle linked to nothing.
    pub fn invalid() -> (r: Self)
        ensures
            r.is_invalid(),
    {
        RuntimeHandleInner {
            sending: Arc::new(RwLock::new(VecDeque::new(), Ghost(AnyValue {}))),
            recieving: Arc::new(RwLock::new(VecDeque::new(), Ghost(AnyValue {}))),
            request: Arc::new(RwLock::new(None, Ghost(AnyValue {}))),
            response: Arc::new(RwLock::new(None, Ghost(AnyValue {}))),
            invalid: true,
        }
    }

    /// Two linked handles: what one sends the other receives, and the
    /// request slot of one is the response slot of the other.
    pub fn new() -> (r: (Self, Self))
        ensures
            r.0.outbox() == r.1.inbox(),
            r.0.inbox() == r.1.outbox(),
            r.0.request_slot() == r.1.response_slot(),
            r.0.response_slot() == r.1.request_slot(),
            !r.0.is_invalid(),
            !r.1.is_invalid(),
    {
        let q1 = Arc::new(RwLock::new(VecDeque::new(), Ghost(AnyValue {})));
        let q2 = Arc::new(RwLock::new(VecDeque::new(), Ghost(AnyValue {})));
        let r1 = Arc::new(RwLock::new(None, Ghost(AnyValue {})));
        let r2 = Arc::new(RwLock::new(None, Ghost(AnyValue {})));
        (
            RuntimeHandleInner {
                sending: q1.clone(),
                recieving: q2.clone(),
                request: r1.clone(),
                response: r2.clone(),
                invalid: false,
            },
            RuntimeHandleInner { sending: q2, recieving: q1, request: r2, response: r1, invalid: false },
        )
    }

    /// Another handle on the same queues and slots.
    pub fn share(&self) -> (r: Self)
        ensures
            r.outbox() == self.outbox(),
            r.inbox() == self.inbox(),
            r.request_slot() == self.request_slot(),
            r.response_slot() == self.response_slot(),
            r.is_invalid() == self.is_invalid(),
    {
        RuntimeHandleInner {
            sending: self.sending.clone(),
            recieving: self.recieving.clone(),
            request: self.request.clone(),
            response: self.response.clone(),
            invalid: self.invalid,
        }
    }

    /// Whether this handle is linked to nothing.
    pub fn invalid_link(&self) -> (r: bool)
        ensures
            r == self.is_invalid(),
    {
        self.invalid
    }

    /// Queues `msg` to the other side.
    pub fn send(&self, msg: Message)
        requires
            !self.is_invalid(),
    {
        let (mut q, handle) = self.sending.acquire_write();
        q.push_back(msg);
        handle.release_write(q);
    }

    /// The oldest message from the other side, if any.
    pub fn receive(&self) -> Option<Message> {
        let (mut q, handle) = self.recieving.acquire_write();
        let out = q.pop_front();
        handle.release_write(q);
        out
    }

    /// The oldest message from the other side; `None` means that the wait
    /// goes on.
    pub fn receive_wait(&self) -> Option<Message> {
        self.receive()
    }

    /// A request that the other side made of this one and that was not
    /// answered yet; `None` when there is none.
    pub fn recieve_request(&self) -> Option<Message> {
        let (slot, handle) = self.response.acquire_write();
        let (rest, out) = take_request(slot);
        handle.release_write(rest);
        out
    }

    /// Answers the request made of this side with `msg`.
    pub fn respond(&self, msg: Message) {
        let (_old, handle) = self.response.acquire_write();
        handle.release_write(Some((true, msg)));
    }

    /// The answer to this side's request; `None` means that the wait goes on.
    pub fn recieve_response(&self) -> Option<Message> {
        let (slot, handle) = self.request.acquire_write();
        let (rest, out) = take_answer(slot);
        handle.release_write(rest);
        out
    }

    /// Makes `msg` this side's request, in place of any earlier one.
    pub fn send_request_immediate(&self, msg: Message) {
        let (_old, handle) = self.request.acquire_write();
        handle.release_write(Some((false, msg)));
    }

    /// Whether the slot of requests made of this side holds something.
    fn response_occupied(&self) -> bool {
        let handle = self.response.acquire_read();
        let out = handle.borrow().is_some();
        handle.release_read();
        out
    }

    /// Puts `slot` into the slot of requests made of this side.
    fn set_response(&self, slot: Slot) {
        let (_old, handle) = self.response.acquire_write();
        handle.release_write(slot);
    }

    /// Puts `slot` into the slot of this side's requests.
    fn set_request(&self, slot: Slot) {
        let (_old, handle) = self.request.acquire_write();
        handle.release_write(slot);
    }

    /// Takes the slot of requests made of this side, leaving it empty.
    fn take_response_slot(&self) -> Slot {
        let (slot, handle) = self.response.acquire_write();
        handle.release_write(None);
        slot
    }

    /// Takes every message from the other side, oldest first.
    fn drain_inbox(&self) -> Vec<Message> {
        let (mut q, handle) = self.recieving.acquire_write();
        let mut out: Vec<Message> = Vec::new();
        while q.len() > 0
            decreases q@.len(),
        {
            match q.pop_front() {
                Some(m) => out.push(m),
                None => {},
            }
        }
        handle.release_write(q);
        out
    }
}

/// A process's handle on the runtime: its link and its own identifier.
pub struct RuntimeHandle {
    inner: Arc<RuntimeHandleInner>,
    this_id: ProcessId,
}

impl RuntimeHandle {
    pub closed spec fn id(&self) -> ProcessId {
        self.this_id
    }

    pub closed spec fn link(&self) -> RuntimeHandleInner {
        *self.inner
    }

    /// A handle linked to nothing, with the invalid identifier.
    pub fn invalid() -> (r: Self)
        ensures
            r.id().value() == 0,
            r.link().is_invalid(),
    {
        RuntimeHandle { inner: Arc::new(RuntimeHandleInner::invalid()), this_id: ProcessId::invalid() }
    }

    /// The process's link to the runtime.
    pub fn inner(&self) -> (r: &RuntimeHandleInner)
        ensures
            *r == self.link(),
    {
        &self.inner
    }

    /// The process's identifier.
    pub fn this_id(&self) -> (r: ProcessId)
        ensures
            r == self.id(),
    {
        self.this_id
    }
}

/// A process that a request asked to start: the caller's token for its task,
/// the identifier it was given, and its handle on the runtime.
pub struct Spawned {
    pub token: u64,
    pub id: ProcessId,
    pub handle: RuntimeHandle,
}

/// A start of a process that a request asked for: the process that asked,
/// the caller's token for the task, and the name asked for, if any.
pub struct SpawnRequest {
    pub requester: ProcessId,
    pub token: u64,
    pub name: Option<String>,
}

/// What the runtime does about a request that a process made.
pub enum RequestAction {
    /// Deliver data to process `to`.
    Deliver { to: ProcessId, data: Vec<u8> },
    /// Answer at once.
    Answer(Message),
    /// End a process.
    Kill(ProcessId),
    /// Start a task, under a name if one is given.
    Spawn(u64, Option<String>),
    /// Nothing.
    Ignore,
}

/// The answer to a lookup: the identifier when there is one.
pub open spec fn lookup_answer(found: Option<ProcessId>) -> Message {
    match found {
        Some(id) => Message::ReturnedId(id),
        None => Message::ProcessDoesNotExist,
    }
}

/// The process that the latest registration of `name` names: a name
/// registered again names the process it was given last.
pub open spec fn last_named(names: Seq<(Seq<char>, ProcessId)>, name: Seq<char>) -> Option<ProcessId>
    decreases names.len(),
{
    if names.len() == 0 {
        None
    } else if names.last().0 == name {
        Some(names.last().1)
    } else {
        last_named(names.drop_last(), name)
    }
}

/// The action for request `msg`, given the registered names and the
/// identifiers of the processes: data is delivered, a lookup of a name or an
/// identifier is answered with the identifier or `ProcessDoesNotExist`, a
/// kill ends the process, a spawn starts one, and anything else is ignored.
pub open spec fn spec_request_action(msg: Message, names: Seq<(Seq<char>, ProcessId)>, ids: Set<u64>) -> RequestAction {
    match msg {
        Message::Message { to, from: _, data } => RequestAction::Deliver { to, data },
        Message::GetNamedProcess(name) => RequestAction::Answer(lookup_answer(last_named(names, name@))),
        Message::DoesProcessExist(id) => RequestAction::Answer(
            lookup_answer(
                if ids.contains(id.value()) {
                    Some(id)
                } else {
                    None
                },
            ),
        ),
        Message::KillProcess(pid) => RequestAction::Kill(pid),
        Message::SpawnProcess(t) => RequestAction::Spawn(t, None),
        Message::SpawnProcessNamed(t, name) => RequestAction::Spawn(t, Some(name)),
        _ => RequestAction::Ignore,
    }
}

/// A sequence that `a` is a prefix of stays so when it grows to `c`.
proof fn lemma_prefix_grows<T>(a: Seq<T>, b: Seq<T>, c: Seq<T>)
    requires
        a.is_prefix_of(b),
        c == b || exists|x: T| c == #[trigger] b.push(x),
    ensures
        a.is_prefix_of(c),
{
    if c != b {
        let x = choose|x: T| c == #[trigger] b.push(x);
        assert(c.subrange(0, a.len() as int) =~= b.subrange(0, a.len() as int));
    }
}

/// The removals that message `m` from process `from` asks for.
pub open spec fn msg_removals(from: ProcessId, m: Message) -> Seq<ProcessId> {
    match m {
        Message::ProcessExit => seq![from],
        Message::KillProcess(q) => seq![q],
        _ => Seq::empty(),
    }
}

/// The removals that the messages `msgs` from process `from` ask for, in
/// order.
pub open spec fn removals_of(from: ProcessId, msgs: Seq<Message>) -> Seq<ProcessId>
    decreases msgs.len(),
{
    if msgs.len() == 0 {
        Seq::empty()
    } else {
        removals_of(from, msgs.drop_last()) + msg_removals(from, msgs.last())
    }
}

/// The data that message `m` from process `from` forwards, with the
/// process it goes to: data for another process that exists.
pub open spec fn msg_forwards(from: ProcessId, m: Message, ids: Set<u64>) -> Seq<(ProcessId, Message)> {
    match m {
        Message::Message { to, from: _, data: _ } => if to.value() != from.value() && ids.contains(to.value()) {
            seq![(to, m)]
        } else {
            Seq::empty()
        },
        _ => Seq::empty(),
    }
}

/// The data that the messages `msgs` from process `from` forward, in
/// order.
pub open spec fn forwards_of(from: ProcessId, msgs: Seq<Message>, ids: Set<u64>) -> Seq<(ProcessId, Message)>
    decreases msgs.len(),
{
    if msgs.len() == 0 {
        Seq::empty()
    } else {
        forwards_of(from, msgs.drop_last(), ids) + msg_forwards(from, msgs.last(), ids)
    }
}

/// The removals that the messages taken from each process ask for, process
/// by process.
pub open spec fn drained_removals(drained: Seq<(ProcessId, Vec<Message>)>) -> Seq<ProcessId>
    decreases drained.len(),
{
    if drained.len() == 0 {
        Seq::empty()
    } else {
        drained_removals(drained.drop_last()) + removals_of(drained.last().0, drained.last().1@)
    }
}

/// The request that delivers the waiting data `p`, (to, from, data), and the
/// process whose slot it goes into: data for `to` from `from`.
pub open spec fn delivery_of(p: (ProcessId, ProcessId, Vec<u8>)) -> (u64, Message) {
    (p.0.value(), Message::Message { to: p.0, from: p.1, data: p.2 })
}

/// How many of the waiting items `waiting` go from a process of `ids` to a
/// process of `ids`.
pub open spec fn count_between(waiting: Seq<(ProcessId, ProcessId, Vec<u8>)>, ids: Set<u64>) -> nat
    decreases waiting.len(),
{
    if waiting.len() == 0 {
        0
    } else {
        count_between(waiting.drop_last(), ids) + if ids.contains(waiting.last().0.value()) && ids.contains(
            waiting.last().1.value(),
        ) {
            1nat
        } else {
            0nat
        }
    }
}

/// Whether `d` is the delivery of one of the waiting items `waiting`.
pub open spec fn delivers_one_of(d: (u64, Message), waiting: Seq<(ProcessId, ProcessId, Vec<u8>)>) -> bool {
    exists|j: int| 0 <= j < waiting.len() && d == delivery_of(waiting[j])
}

/// The identifiers of the processes in `s`.
pub open spec fn id_set(s: Seq<ProcessId>) -> Set<u64> {
    Set::new(|v: u64| exists|k: int| 0 <= k < s.len() && s[k].value() == v)
}

/// Whether `s` is `t` with some of its items left out: its items stand in
/// `t` in the same order.
pub open spec fn is_subsequence<T>(s: Seq<T>, t: Seq<T>) -> bool {
    exists|idx: Seq<int>| picks(idx, s, t, t.len() as int)
}

/// Whether `idx` picks the items of `s` out of the first `n` items of `t`,
/// at rising positions.
pub open spec fn picks<T>(idx: Seq<int>, s: Seq<T>, t: Seq<T>, n: int) -> bool {
    &&& idx.len() == s.len()
    &&& forall|j: int, k: int| 0 <= j < k < idx.len() ==> #[trigger] idx[j] < #[trigger] idx[k]
    &&& forall|j: int| 0 <= j < idx.len() ==> 0 <= #[trigger] idx[j] < n && n <= t.len() && s[j] == t[idx[j]]
}

/// Whether the pairs `keys[x]`, `values[x]` list every entry of `m`.
spec fn lists_entries(keys: Seq<u64>, values: Seq<u64>, m: Map<u64, u64>) -> bool {
    forall|key: u64|
        #[trigger] m.contains_key(key) ==> exists|x: int|
            0 <= x < keys.len() && keys[x] == key && values[x] == m[key]
}

/// The runtime's tables: the link to each process, by identifier; the
/// names of processes; requests waiting for another process's answer; data
/// waiting to be delivered as a request; and processes to remove.
pub struct Runtime {
    processes: BTreeMap<u64, RuntimeHandleInner>,
    proc_names: Vec<(String, ProcessId)>,
    inflight_requests: BTreeMap<u64, u64>,
    to_run: Vec<(ProcessId, ProcessId, Vec<u8>)>,
    to_remove: Vec<ProcessId>,
    delivered: Ghost<Seq<(u64, Message)>>,
}

impl Runtime {
    /// The requests that the runtime has put into processes' request slots
    /// to deliver data, in order, each with the process it went to.
    pub closed spec fn deliveries(&self) -> Seq<(u64, Message)> {
        self.delivered@
    }

    /// The identifiers of the processes.
    pub closed spec fn ids(&self) -> Set<u64> {
        self.processes@.dom()
    }

    /// The processes to remove at the next clean-up.
    pub closed spec fn removals(&self) -> Seq<ProcessId> {
        self.to_remove@
    }

    /// The names, in the order they were given, each with its process.
    pub closed spec fn names(&self) -> Seq<(Seq<char>, ProcessId)> {
        self.proc_names@.map_values(|p: (String, ProcessId)| (p.0@, p.1))
    }

    /// The link to each process, by identifier.
    pub closed spec fn links(&self) -> Map<u64, RuntimeHandleInner> {
        self.processes@
    }

    /// The data waiting to be delivered, as (to, from, data).
    pub closed spec fn pending(&self) -> Seq<(ProcessId, ProcessId, Vec<u8>)> {
        self.to_run@
    }

    /// Requests waiting for another process's answer: requester to
    /// answerer.
    pub closed spec fn inflight(&self) -> Map<u64, u64> {
        self.inflight_requests@
    }

    /// A runtime without processes.
    pub fn new() -> (r: Self)
        ensures
            r.ids() == Set::<u64>::empty(),
            r.removals() == Seq::<ProcessId>::empty(),
            r.names() == Seq::<(Seq<char>, ProcessId)>::empty(),
            r.pending() == Seq::<(ProcessId, ProcessId, Vec<u8>)>::empty(),
            r.inflight() == Map::<u64, u64>::empty(),
    {
        let r = Runtime {
            processes: BTreeMap::new(),
            proc_names: Vec::new(),
            inflight_requests: BTreeMap::new(),
            to_run: Vec::new(),
            to_remove: Vec::new(),
            delivered: Ghost(Seq::empty()),
        };
        assert(r.names() =~= Seq::<(Seq<char>, ProcessId)>::empty());
        r
    }

    /// Whether no process is left.
    pub fn is_empty(&self) -> (r: bool)
        ensures
            r == (self.ids().len() == 0),
    {
        self.processes.len() == 0
    }

    /// Whether process `id` exists.
    pub fn contains(&self, id: ProcessId) -> (r: bool)
        ensures
            r == self.ids().contains(id.value()),
    {
        self.processes.contains_key(&id.get())
    }

    /// Marks process `id` to be removed at the next clean-up; the caller
    /// does so when the process's task has finished.
    pub fn finished(&mut self, id: ProcessId)
        ensures
            final(self).removals() == old(self).removals().push(id),
            final(self).ids() == old(self).ids(),
            final(self).names() == old(self).names(),
            final(self).pending() == old(self).pending(),
    {
        self.to_remove.push(id);
    }

    /// The process registered under `name`, the latest registration where
    /// there are several.
    pub fn named(&self, name: &String) -> (r: Option<ProcessId>)
        ensures
            r == last_named(self.names(), name@),
    {
        let mut i: usize = self.proc_names.len();
        assert(self.names().take(i as int) =~= self.names());
        while i > 0
            invariant
                i <= self.proc_names@.len(),
                last_named(self.names(), name@) == last_named(self.names().take(i as int), name@),
            decreases i,
        {
            let ghost pre = self.names().take(i as int);
            assert(pre.last() == (self.proc_names@[i - 1].0@, self.proc_names@[i - 1].1));
            if self.proc_names[i - 1].0 == *name {
                return Some(self.proc_names[i - 1].1);
            }
            assert(pre.drop_last() =~= self.names().take(i - 1));
            i -= 1;
        }
        None
    }

    /// Registers `name` for process `id`; a lookup of the name then finds
    /// `id`, whatever it named before.
    fn register(&mut self, name: String, id: ProcessId)
        ensures
            final(self).names() == old(self).names().push((name@, id)),
            final(self).ids() == old(self).ids(),
            final(self).removals() == old(self).removals(),
            final(self).pending() == old(self).pending(),
    {
        self.proc_names.push((name, id));
        assert(self.names() =~= old(self).names().push((name@, id)));
    }

    /// The action for a request that a process made.
    pub fn request_action(&self, msg: Message) -> (r: RequestAction)
        ensures
            r == spec_request_action(msg, self.names(), self.ids()),
    {
        match msg {
            Message::Message { to, from: _, data } => RequestAction::Deliver { to, data },
            Message::GetNamedProcess(name) => {
                match self.named(&name) {
                    Some(pid) => RequestAction::Answer(Message::ReturnedId(pid)),
                    None => RequestAction::Answer(Message::ProcessDoesNotExist),
                }
            },
            Message::DoesProcessExist(id) => {
                if self.contains(id) {
                    RequestAction::Answer(Message::ReturnedId(id))
                } else {
                    RequestAction::Answer(Message::ProcessDoesNotExist)
                }
            },
            Message::KillProcess(pid) => RequestAction::Kill(pid),
            Message::SpawnProcess(t) => RequestAction::Spawn(t, None),
            Message::SpawnProcessNamed(t, name) => RequestAction::Spawn(t, Some(name)),
            _ => RequestAction::Ignore,
        }
    }

    /// Starts a process: gives it the least identifier from 1 on that no
    /// process has, and hands back that identifier with the process's
    /// handle.
    pub fn spawn_ll(&mut self) -> (r: (ProcessId, RuntimeHandle))
        requires
            has_free_from(old(self).ids(), 1),
        ensures
            least_free_from(old(self).ids(), 1, r.0.value()),
            final(self).ids() == old(self).ids().insert(r.0.value()),
            r.1.id() == r.0,
            !r.1.link().is_invalid(),
            final(self).removals() == old(self).removals(),
            final(self).names() == old(self).names(),
            final(self).pending() == old(self).pending(),
    {
        let mut i: u64 = 1;
        loop
            invariant
                1 <= i,
                self.processes@ == old(self).processes@,
                has_free_from(self.ids(), 1),
                forall|j: u64| 1 <= j < i ==> self.ids().contains(j),
            ensures
                1 <= i,
                self.processes@ == old(self).processes@,
                !self.ids().contains(i),
                forall|j: u64| 1 <= j < i ==> self.ids().contains(j),
            decreases u64::MAX - i,
        {
            if !self.processes.contains_key(&i) {
                break;
            }
            assert(i < u64::MAX) by {
                if i == u64::MAX {
                    let w = choose|j: u64| 1 <= j < u64::MAX && !self.ids().contains(j);
                    assert(self.ids().contains(w));
                }
            }
            i += 1;
        }
        let id = ProcessId::from_value(i);
        let (h1, h2) = RuntimeHandleInner::new();
        self.processes.insert(i, h2);
        (id, RuntimeHandle { inner: Arc::new(h1), this_id: id })
    }

    /// Starts a process as `spawn_ll` does, where an identifier is left; `None`
    /// where the processes are too many for one.
    pub fn try_spawn(&mut self) -> (r: Option<(ProcessId, RuntimeHandle)>)
        ensures
            r matches Some(p) ==> least_free_from(old(self).ids(), 1, p.0.value()) && final(self).ids()
                == old(self).ids().insert(p.0.value()) && p.1.id() == p.0,
            r is None ==> final(self).ids() == old(self).ids() && old(self).ids().len() >= usize::MAX
                - 1,
            final(self).removals() == old(self).removals(),
            final(self).names() == old(self).names(),
            final(self).pending() == old(self).pending(),
    {
        if self.processes.len() >= usize::MAX - 1 {
            return None;
        }
        proof {
            self.lemma_free_id(1);
        }
        Some(self.spawn_ll())
    }

    /// Answers requests that wait for another process: a request to a
    /// process that no longer exists gets `ProcessDoesNotExist`, and an
    /// answer that the other process gave is passed on. Requests answered
    /// either way stop waiting.
    pub fn handle_ip_requests(&mut self)
        ensures
            final(self).ids() == old(self).ids(),
            final(self).inflight().dom().subset_of(old(self).inflight().dom()),
            forall|k: u64| #[trigger] final(self).inflight().dom().contains(k) ==> final(self).inflight()[k]
                == old(self).inflight()[k],
            forall|k: u64|
                #[trigger] old(self).inflight().contains_key(k) && !old(self).ids().contains(
                    old(self).inflight()[k],
                ) ==> !final(self).inflight().contains_key(k),
            final(self).removals() == old(self).removals(),
            final(self).names() == old(self).names(),
            final(self).pending() == old(self).pending(),
    {
        let mut done: Vec<u64> = Vec::new();
        let mut keys: Vec<u64> = Vec::new();
        let mut values: Vec<u64> = Vec::new();
        let ghost kv = vstd::std_specs::btree::spec_btree_map_iter(&self.inflight_requests).remaining();
        let ghost mut n: int = 0;
        for (k, v) in it: self.inflight_requests.iter()
            invariant
                it.seq() == kv,
                n == it.index(),
                n <= kv.len(),
                keys@.len() == n,
                values@.len() == n,
                forall|x: int| 0 <= x < n ==> #[trigger] keys@[x] == *kv[x].0 && values@[x] == *kv[x].1,
        {
            proof {
                assert(kv[n] == (k, v));
                n = n + 1;
            }
            keys.push(*k);
            values.push(*v);
        }
        proof {
            assert(n == kv.len());
            assert forall|key: u64| #[trigger] old(self).inflight().contains_key(key) implies exists|x: int|
                0 <= x < keys@.len() && keys@[x] == key && values@[x] == old(self).inflight()[key] by {
                assert(kv.contains((&key, &self.inflight_requests@[key])));
                let x = choose|x: int| 0 <= x < kv.len() && kv[x] == (&key, &self.inflight_requests@[key]);
                assert(keys@[x] == key);
            }
            assert(lists_entries(keys@, values@, old(self).inflight()));
        }
        let mut i: usize = 0;
        while i < keys.len()
            invariant
                lists_entries(keys@, values@, old(self).inflight()),
                keys@.len() == values@.len(),
                i <= keys@.len(),
                forall|x: int|
                    0 <= x < i && !old(self).ids().contains(#[trigger] values@[x]) ==> done@.contains(
                        keys@[x],
                    ),
                self.processes@ == old(self).processes@,
                self.inflight_requests@ == old(self).inflight_requests@,
                self.to_remove@ == old(self).to_remove@,
                self.proc_names@ == old(self).proc_names@,
                self.to_run@ == old(self).to_run@,
            decreases keys@.len() - i,
        {
            let from = keys[i];
            let to = values[i];
            let ghost before = done@;
            match self.processes.get(&to) {
                None => {
                    done.push(from);
                    match self.processes.get(&from) {
                        Some(fromr) => fromr.set_request(Some((true, Message::ProcessDoesNotExist))),
                        None => {},
                    }
                },
                Some(tor) => {
                    let slot = tor.take_response_slot();
                    match slot {
                        Some((true, m)) => {
                            match self.processes.get(&from) {
                                Some(fromr) => fromr.set_request(Some((true, m))),
                                None => {},
                            }
                            done.push(from);
                        },
                        other => tor.set_response(other),
                    }
                },
            }
            proof {
                assert(done@ == before || done@ == before.push(from));
                assert(!old(self).ids().contains(to) ==> done@ == before.push(from));
                assert forall|x: int|
                    0 <= x < i + 1 && !old(self).ids().contains(#[trigger] values@[x]) implies done@.contains(
                        keys@[x],
                    ) by {
                    if x < i {
                        let y = choose|y: int| 0 <= y < before.len() && before[y] == keys@[x];
                        assert(done@[y] == keys@[x]);
                    } else {
                        assert(done@[before.len() as int] == keys@[x]);
                    }
                }
            }
            i += 1;
        }
        let ghost all_done = done@;
        let mut j: usize = 0;
        while j < done.len()
            invariant
                lists_entries(keys@, values@, old(self).inflight()),
                forall|x: int|
                    0 <= x < keys@.len() && !old(self).ids().contains(#[trigger] values@[x])
                        ==> all_done.contains(keys@[x]),
                done@ == all_done,
                forall|x: int| 0 <= x < j ==> !self.inflight_requests@.contains_key(#[trigger] all_done[x]),
                j <= done@.len(),
                self.processes@ == old(self).processes@,
                self.inflight_requests@.dom().subset_of(old(self).inflight_requests@.dom()),
                forall|k: u64| #[trigger] self.inflight_requests@.dom().contains(k) ==> self.inflight_requests@[k]
                    == old(self).inflight_requests@[k],
                self.to_remove@ == old(self).to_remove@,
                self.proc_names@ == old(self).proc_names@,
                self.to_run@ == old(self).to_run@,
            decreases done@.len() - j,
        {
            self.inflight_requests.remove(&done[j]);
            j += 1;
        }
        proof {
            assert forall|k: u64|
                #[trigger] old(self).inflight().contains_key(k) && !old(self).ids().contains(
                    old(self).inflight()[k],
                ) implies !self.inflight().contains_key(k) by {
                let x = choose|x: int|
                    0 <= x < keys@.len() && keys@[x] == k && values@[x] == old(self).inflight()[k];
                assert(!old(self).ids().contains(values@[x]));
                assert(all_done.contains(k));
                let y = choose|y: int| 0 <= y < all_done.len() && all_done[y] == k;
                assert(!self.inflight_requests@.contains_key(all_done[y]));
            }
        }
    }

    /// Acts on request `msg` that process `from` made: data is queued for
    /// delivery from `from`, a kill marks its process for removal, a spawn is
    /// queued in `spawns` to be started once every request was read, and a
    /// lookup gives back its answer, which the caller puts in `from`'s slot.
    pub fn apply_request(&mut self, from: ProcessId, msg: Message, spawns: &mut Vec<SpawnRequest>) -> (r: Option<Message>)
        ensures
            final(self).ids() == old(self).ids(),
            final(self).names() == old(self).names(),
            final(self).deliveries() == old(self).deliveries(),
            match spec_request_action(msg, old(self).names(), old(self).ids()) {
                RequestAction::Deliver { to, data } => {
                    &&& final(self).pending() == old(self).pending().push((to, from, data))
                    &&& final(self).removals() == old(self).removals()
                    &&& final(spawns)@ == old(spawns)@
                    &&& r is None
                },
                RequestAction::Answer(a) => {
                    &&& final(self).pending() == old(self).pending()
                    &&& final(self).removals() == old(self).removals()
                    &&& final(spawns)@ == old(spawns)@
                    &&& r == Some(a)
                },
                RequestAction::Kill(p) => {
                    &&& final(self).pending() == old(self).pending()
                    &&& final(self).removals() == old(self).removals().push(p)
                    &&& final(spawns)@ == old(spawns)@
                    &&& r is None
                },
                RequestAction::Spawn(t, name) => {
                    &&& final(self).pending() == old(self).pending()
                    &&& final(self).removals() == old(self).removals()
                    &&& final(spawns)@ == old(spawns)@.push(SpawnRequest { requester: from, token: t, name })
                    &&& r is None
                },
                RequestAction::Ignore => {
                    &&& final(self).pending() == old(self).pending()
                    &&& final(self).removals() == old(self).removals()
                    &&& final(spawns)@ == old(spawns)@
                    &&& r is None
                },
            },
    {
        match self.request_action(msg) {
            RequestAction::Deliver { to, data } => {
                self.to_run.push((to, from, data));
                None
            },
            RequestAction::Answer(a) => Some(a),
            RequestAction::Kill(target) => {
                self.to_remove.push(target);
                None
            },
            RequestAction::Spawn(t, name) => {
                spawns.push(SpawnRequest { requester: from, token: t, name });
                None
            },
            RequestAction::Ignore => None,
        }
    }

    /// Starts the process that `req` asked for, where its requester still
    /// exists and an identifier is left: the new process gets the least free
    /// identifier from 1 on and, where the request named it, the name; the
    /// requester is answered with the identifier. `None`, with nothing
    /// changed, otherwise.
    pub fn spawn_requested(&mut self, req: SpawnRequest) -> (r: Option<Spawned>)
        ensures
            r is Some <==> old(self).ids().contains(req.requester.value()) && old(self).ids().len()
                < usize::MAX - 1,
            r matches Some(s) ==> {
                &&& least_free_from(old(self).ids(), 1, s.id.value())
                &&& final(self).ids() == old(self).ids().insert(s.id.value())
                &&& s.token == req.token
                &&& s.handle.id() == s.id
                &&& final(self).names() == match req.name {
                    Some(n) => old(self).names().push((n@, s.id)),
                    None => old(self).names(),
                }
            },
            r is None ==> final(self).ids() == old(self).ids() && final(self).names() == old(
                self,
            ).names(),
            final(self).removals() == old(self).removals(),
            final(self).pending() == old(self).pending(),
    {
        if !self.contains(req.requester) {
            return None;
        }
        if self.processes.len() >= usize::MAX - 1 {
            return None;
        }
        proof {
            self.lemma_free_id(1);
        }
        let (id, handle) = self.spawn_ll();
        match self.processes.get(&req.requester.get()) {
            Some(proc) => proc.set_response(Some((true, Message::ReturnedId(id)))),
            None => {},
        }
        match req.name {
            Some(n) => self.register(n, id),
            None => {},
        }
        Some(Spawned { token: req.token, id, handle })
    }

    /// Takes the request that each process made and acts on it as
    /// `apply_request` does, answering lookups in the requester's slot; then
    /// starts the processes asked for, in the order asked, as
    /// `spawn_requested` does. Hands back the processes started, for the
    /// caller to run their tasks.
    pub fn handle_requests(&mut self) -> (r: Vec<Spawned>)
        ensures
            old(self).ids().subset_of(final(self).ids()),
            forall|i: int| 0 <= i < r@.len() ==> final(self).ids().contains(#[trigger] r@[i].id.value())
                && !old(self).ids().contains(r@[i].id.value()),
            forall|id: u64| #[trigger] final(self).ids().contains(id) ==> old(self).ids().contains(id)
                || exists|i: int| 0 <= i < r@.len() && r@[i].id.value() == id,
            old(self).removals().is_prefix_of(final(self).removals()),
            old(self).pending().is_prefix_of(final(self).pending()),
            old(self).names().is_prefix_of(final(self).names()),
    {
        let mut to_spawn: Vec<SpawnRequest> = Vec::new();
        let mut keys: Vec<u64> = Vec::new();
        for k in self.processes.keys() {
            keys.push(*k);
        }
        let mut i: usize = 0;
        while i < keys.len()
            invariant
                i <= keys@.len(),
                self.ids() == old(self).ids(),
                old(self).removals().is_prefix_of(self.removals()),
                old(self).pending().is_prefix_of(self.pending()),
                self.names() == old(self).names(),
            decreases keys@.len() - i,
        {
            let pid = keys[i];
            i += 1;
            let msg = match self.processes.get(&pid) {
                Some(proc) => proc.take_response_slot(),
                None => None,
            };
            let request = match msg {
                None => continue,
                Some((true, answered)) => {
                    match self.processes.get(&pid) {
                        Some(proc) => proc.set_response(Some((true, answered))),
                        None => {},
                    }
                    continue;
                },
                Some((false, m)) => m,
            };
            let ghost removals0 = self.removals();
            let ghost pending0 = self.pending();
            let answer = self.apply_request(ProcessId::from_value(pid), request, &mut to_spawn);
            proof {
                lemma_prefix_grows(old(self).removals(), removals0, self.removals());
                lemma_prefix_grows(old(self).pending(), pending0, self.pending());
            }
            match answer {
                Some(a) => {
                    match self.processes.get(&pid) {
                        Some(proc) => proc.set_response(Some((true, a))),
                        None => {},
                    }
                },
                None => {},
            }
        }
        let mut out: Vec<Spawned> = Vec::new();
        assert(old(self).names().is_prefix_of(self.names()));
        for req in it: to_spawn.into_iter()
            invariant
                old(self).ids().subset_of(self.ids()),
                forall|i: int| 0 <= i < out@.len() ==> self.ids().contains(#[trigger] out@[i].id.value())
                    && !old(self).ids().contains(out@[i].id.value()),
                forall|id: u64| #[trigger] self.ids().contains(id) ==> old(self).ids().contains(id)
                    || exists|i: int| 0 <= i < out@.len() && out@[i].id.value() == id,
                old(self).removals().is_prefix_of(self.removals()),
                old(self).pending().is_prefix_of(self.pending()),
                old(self).names().is_prefix_of(self.names()),
        {
            let ghost names0 = self.names();
            let ghost ids0 = self.ids();
            let ghost out0 = out@;
            match self.spawn_requested(req) {
                Some(s) => {
                    proof {
                        lemma_prefix_grows(old(self).names(), names0, self.names());
                    }
                    out.push(s);
                    proof {
                        assert forall|id: u64| #[trigger] self.ids().contains(id) implies old(self).ids().contains(id)
                            || exists|i: int| 0 <= i < out@.len() && out@[i].id.value() == id by {
                            if ids0.contains(id) {
                                if !old(self).ids().contains(id) {
                                    let w = choose|i: int| 0 <= i < out0.len() && out0[i].id.value() == id;
                                    assert(out@[w] == out0[w]);
                                }
                            } else {
                                assert(out@[out0.len() as int].id.value() == id);
                            }
                        }
                    }
                },
                None => {},
            }
        }
        out
    }

    /// There is a free identifier from `low` on while fewer processes exist
    /// than identifiers from `low` on.
    proof fn lemma_free_id(&self, low: u64)
        requires
            self.processes@.len() < u64::MAX - low,
        ensures
            has_free_from(self.ids(), low),
    {
        assert(self.processes@.dom().finite());
        vstd::std_specs::btree::axiom_btree_map_view_finite_dom(self.processes);
        crate::id_alloc::lemma_free_id_exists(self.ids(), low);
    }

    /// Acts on message `msg` that process `from` sent to the runtime: an
    /// exit marks `from` for removal, a kill marks its process, and data for
    /// another process that exists is handed back with that process, to be
    /// put in its queue; anything else is dropped.
    pub fn route_message(&mut self, from: ProcessId, msg: Message) -> (r: Option<(ProcessId, Message)>)
        ensures
            final(self).ids() == old(self).ids(),
            final(self).names() == old(self).names(),
            final(self).pending() == old(self).pending(),
            final(self).links() == old(self).links(),
            final(self).deliveries() == old(self).deliveries(),
            msg is ProcessExit ==> r is None && final(self).removals() == old(self).removals().push(from),
            msg is KillProcess ==> r is None && final(self).removals() == old(self).removals().push(msg->KillProcess_0),
            msg is Message ==> final(self).removals() == old(self).removals() && r == if msg->to.value()
                != from.value() && old(self).ids().contains(msg->to.value()) {
                Some((msg->to, msg))
            } else {
                None
            },
            !(msg is ProcessExit || msg is KillProcess || msg is Message) ==> (r is None && final(self).removals() == old(self).removals()),
    {
        match msg {
            Message::ProcessExit => {
                self.to_remove.push(from);
                None
            },
            Message::Message { to, from: sender, data } => {
                if to.get() != from.get() && self.processes.contains_key(&to.get()) {
                    Some((to, Message::Message { to, from: sender, data }))
                } else {
                    None
                }
            },
            Message::KillProcess(id) => {
                self.to_remove.push(id);
                None
            },
            _ => None,
        }
    }

    /// Acts on the messages `msgs` that process `from` sent to the runtime,
    /// in order, as `route_message` does: the removals they ask for are
    /// marked, and the data to forward is handed back with the process it
    /// goes to.
    pub fn route_messages(&mut self, from: ProcessId, msgs: Vec<Message>) -> (r: Vec<(ProcessId, Message)>)
        ensures
            final(self).removals() == old(self).removals() + removals_of(from, msgs@),
            r@ == forwards_of(from, msgs@, old(self).ids()),
            final(self).ids() == old(self).ids(),
            final(self).names() == old(self).names(),
            final(self).pending() == old(self).pending(),
            final(self).links() == old(self).links(),
            final(self).deliveries() == old(self).deliveries(),
    {
        let mut out: Vec<(ProcessId, Message)> = Vec::new();
        let ghost all = msgs@;
        let ghost mut n: int = 0;
        proof {
            assert(all.take(0) =~= Seq::<Message>::empty());
            assert(old(self).removals() + removals_of(from, all.take(0)) =~= old(self).removals());
        }
        for msg in it: msgs.into_iter()
            invariant
                it.seq() == all,
                n == it.index(),
                0 <= n <= all.len(),
                self.removals() == old(self).removals() + removals_of(from, all.take(n)),
                out@ == forwards_of(from, all.take(n), old(self).ids()),
                self.ids() == old(self).ids(),
                self.names() == old(self).names(),
                self.pending() == old(self).pending(),
                self.links() == old(self).links(),
                self.deliveries() == old(self).deliveries(),
        {
            let ghost before = self.removals();
            let ghost out0 = out@;
            proof {
                assert(msg == all[n]);
                assert(all.take(n + 1).drop_last() =~= all.take(n));
                assert(all.take(n + 1).last() == msg);
            }
            let ghost m = msg;
            match self.route_message(from, msg) {
                Some(f) => out.push(f),
                None => {},
            }
            proof {
                assert(self.removals() =~= old(self).removals() + removals_of(from, all.take(n + 1)));
                assert(out@ =~= forwards_of(from, all.take(n + 1), old(self).ids()));
                n = n + 1;
            }
        }
        proof {
            assert(all.take(n) =~= all);
        }
        out
    }

    /// Puts the request `msg` into the request slot of process `target`, to
    /// deliver data to it, and records the delivery.
    fn put_delivery(&mut self, target: u64, msg: Message)
        ensures
            final(self).deliveries() == old(self).deliveries().push((target, msg)),
            final(self).links() == old(self).links(),
            final(self).names() == old(self).names(),
            final(self).pending() == old(self).pending(),
            final(self).removals() == old(self).removals(),
            final(self).to_run@ == old(self).to_run@,
    {
        proof {
            self.delivered@ = self.delivered@.push((target, msg));
        }
        match self.processes.get(&target) {
            Some(receiver) => receiver.set_response(Some((true, msg))),
            None => {},
        }
    }

    /// The rest of a clean-up once the messages that each process sent to
    /// the runtime were taken, as `drained` lists them, by process in order:
    /// each process's messages are routed as `route_messages` says and the
    /// data is put in the queues of the processes it goes to; then waiting
    /// deliveries are made as requests where the receiver's slot is free,
    /// are kept where it is taken, and answer `ProcessDoesNotExist` where
    /// the receiver is gone; then every process marked for removal, before
    /// or by the messages, is removed. A delivery of (to, from, data) puts
    /// the request `Message { to, from, data }` into the slot of `to`, and
    /// each waiting item between two processes is either delivered or kept.
    pub fn finish_cleanup(&mut self, drained: Vec<(ProcessId, Vec<Message>)>)
        ensures
            final(self).ids() == old(self).ids().difference(
                id_set(old(self).removals() + drained_removals(drained@)),
            ),
            final(self).removals() == Seq::<ProcessId>::empty(),
            final(self).names() == old(self).names(),
            is_subsequence(final(self).pending(), old(self).pending()),
            forall|j: int|
                0 <= j < final(self).pending().len() ==> old(self).ids().contains(
                    (#[trigger] final(self).pending()[j]).0.value(),
                ) && old(self).ids().contains(final(self).pending()[j].1.value()),
            old(self).deliveries().is_prefix_of(final(self).deliveries()),
            forall|k: int|
                old(self).deliveries().len() <= k < final(self).deliveries().len() ==> #[trigger] delivers_one_of(
                    final(self).deliveries()[k],
                    old(self).pending(),
                ),
            final(self).pending().len() + final(self).deliveries().len() - old(self).deliveries().len()
                == count_between(old(self).pending(), old(self).ids()),
    {
        let ghost dr = drained@;
        let ghost mut n: int = 0;
        proof {
            assert(dr.take(0) =~= Seq::<(ProcessId, Vec<Message>)>::empty());
            assert(old(self).removals() + drained_removals(dr.take(0)) =~= old(self).removals());
        }
        for entry in it: drained.into_iter()
            invariant
                it.seq() == dr,
                n == it.index(),
                0 <= n <= dr.len(),
                self.removals() == old(self).removals() + drained_removals(dr.take(n)),
                self.links() == old(self).links(),
                self.names() == old(self).names(),
                self.to_run@ == old(self).to_run@,
                self.deliveries() == old(self).deliveries(),
        {
            proof {
                assert(entry == dr[n]);
                assert(dr.take(n + 1).drop_last() =~= dr.take(n));
                assert(dr.take(n + 1).last() == entry);
            }
            let (pid, msgs) = entry;
            let forwards = self.route_messages(pid, msgs);
            for f in it2: forwards.into_iter()
                invariant
                    self.links() == old(self).links(),
                    self.names() == old(self).names(),
                    self.to_run@ == old(self).to_run@,
                    self.deliveries() == old(self).deliveries(),
                    self.removals() == old(self).removals() + drained_removals(dr.take(n + 1)),
            {
                let (target, forwarded) = f;
                match self.processes.get(&target.get()) {
                    Some(proc) => proc.push_to_process(forwarded),
                    None => {},
                }
            }
            proof {
                assert(old(self).removals() + drained_removals(dr.take(n)) + removals_of(pid, msgs@) =~= old(
                    self,
                ).removals() + drained_removals(dr.take(n + 1)));
                n = n + 1;
            }
        }
        proof {
            assert(dr.take(n) =~= dr);
        }
        let mut again: Vec<(ProcessId, ProcessId, Vec<u8>)> = Vec::new();
        let mut runs: Vec<(ProcessId, ProcessId, Vec<u8>)> = Vec::new();
        std::mem::swap(&mut runs, &mut self.to_run);
        let ghost all = runs@;
        let ghost marked0 = self.removals();
        let ghost mut picked: Seq<int> = Seq::empty();
        let ghost mut n: int = 0;
        for run in it: runs.into_iter()
            invariant
                it.seq() == all,
                n == it.index(),
                n <= all.len(),
                all == old(self).pending(),
                self.links() == old(self).links(),
                self.names() == old(self).names(),
                old(self).removals().is_prefix_of(self.removals()),
                picks(picked, again@, all, n),
                self.removals() == marked0,
                old(self).deliveries().is_prefix_of(self.deliveries()),
                forall|k: int|
                    old(self).deliveries().len() <= k < self.deliveries().len() ==> exists|j: int|
                        0 <= j < n && #[trigger] self.deliveries()[k] == delivery_of(all[j]),
                forall|j: int|
                    0 <= j < again@.len() ==> old(self).ids().contains((#[trigger] again@[j]).0.value())
                        && old(self).ids().contains(again@[j].1.value()),
                again@.len() + self.deliveries().len() - old(self).deliveries().len() == count_between(
                    all.take(n),
                    old(self).ids(),
                ),
        {
            proof {
                assert(run == all[n]);
            }
            let ghost again0 = again@;
            let (to, from, data) = run;
            let ghost d0 = self.deliveries();
            if self.processes.contains_key(&from.get()) {
                if !self.processes.contains_key(&to.get()) {
                    match self.processes.get(&from.get()) {
                        Some(proc) => proc.set_request(Some((true, Message::ProcessDoesNotExist))),
                        None => {},
                    }
                } else {
                    let occupied = match self.processes.get(&to.get()) {
                        Some(receiver) => receiver.response_occupied(),
                        None => true,
                    };
                    if occupied {
                        again.push((to, from, data));
                    } else {
                        self.put_delivery(to.get(), Message::Message { to, from, data });
                    }
                }
            }
            proof {
                assert forall|k: int|
                    old(self).deliveries().len() <= k < self.deliveries().len() implies exists|j: int|
                        0 <= j < n + 1 && #[trigger] self.deliveries()[k] == delivery_of(all[j]) by {
                    if k < d0.len() {
                        assert(self.deliveries()[k] == d0[k]);
                        let j = choose|j: int| 0 <= j < n && #[trigger] d0[k] == delivery_of(all[j]);
                        assert(self.deliveries()[k] == delivery_of(all[j]));
                    } else {
                        assert(self.deliveries()[k] == delivery_of(all[n]));
                    }
                }
                lemma_prefix_grows(old(self).deliveries(), d0, self.deliveries());
            }
            proof {
                assert(all.take(n + 1).drop_last() =~= all.take(n));
                assert(all.take(n + 1).last() == all[n]);
                if again@.len() > again0.len() {
                    assert(again@ == again0.push(all[n]));
                    picked = picked.push(n);
                }
                n = n + 1;
            }
        }
        proof {
            assert(all.take(n) =~= all);
        }
        let ghost delivered_so_far = self.deliveries();
        proof {
            assert(is_subsequence(again@, old(self).pending()));
            assert forall|k: int|
                old(self).deliveries().len() <= k < delivered_so_far.len() implies #[trigger] delivers_one_of(
                    delivered_so_far[k],
                    old(self).pending(),
                ) by {
                let d = delivered_so_far[k];
                let j = choose|j: int| 0 <= j < n && #[trigger] delivered_so_far[k] == delivery_of(all[j]);
                assert(delivered_so_far[k] == delivery_of(old(self).pending()[j]));
            }
        }
        self.to_run = again;
        let ghost kept = self.pending();
        let ghost marked = self.removals();
        let mut r: usize = 0;
        proof {
            assert(self.ids() =~= old(self).ids().difference(id_set(marked.take(0))));
        }
        while r < self.to_remove.len()
            invariant
                r <= self.to_remove@.len(),
                self.removals() == marked,
                self.deliveries() == delivered_so_far,
                old(self).deliveries().is_prefix_of(delivered_so_far),
                forall|k: int|
                    old(self).deliveries().len() <= k < delivered_so_far.len() ==> #[trigger] delivers_one_of(
                        delivered_so_far[k],
                        old(self).pending(),
                    ),
                self.ids() == old(self).ids().difference(id_set(marked.take(r as int))),
                self.names() == old(self).names(),
                self.pending() == kept,
                kept.len() + delivered_so_far.len() - old(self).deliveries().len() == count_between(
                    old(self).pending(),
                    old(self).ids(),
                ),
                is_subsequence(self.pending(), old(self).pending()),
                forall|j: int|
                    0 <= j < self.pending().len() ==> old(self).ids().contains(
                        (#[trigger] self.pending()[j]).0.value(),
                    ) && old(self).ids().contains(self.pending()[j].1.value()),
            decreases self.to_remove@.len() - r,
        {
            let id = self.to_remove[r].get();
            self.processes.remove(&id);
            proof {
                let t = marked.take(r as int);
                let t1 = marked.take(r + 1);
                assert forall|v: u64| #[trigger] id_set(t1).contains(v) == (id_set(t).contains(v) || v == id) by {
                    if id_set(t1).contains(v) {
                        let k = choose|k: int| 0 <= k < t1.len() && t1[k].value() == v;
                        if k < r {
                            assert(t[k] == t1[k]);
                        }
                    }
                    if id_set(t).contains(v) {
                        let k = choose|k: int| 0 <= k < t.len() && t[k].value() == v;
                        assert(t1[k] == t[k]);
                    }
                    if v == id {
                        assert(t1[r as int].value() == v);
                    }
                }
                assert(self.ids() =~= old(self).ids().difference(id_set(t1)));
            }
            r += 1;
        }
        proof {
            assert(marked.take(r as int) =~= marked);
        }
        self.to_remove = Vec::new();
    }


    /// Moves messages between processes and removes finished ones: takes
    /// the messages that each process sent to the runtime, then finishes as
    /// `finish_cleanup` does.
    pub fn handle_cleanup(&mut self)
        ensures
            final(self).ids().subset_of(old(self).ids()),
            forall|k: int|
                0 <= k < old(self).removals().len() ==> !final(self).ids().contains(
                    #[trigger] old(self).removals()[k].value(),
                ),
            final(self).removals() == Seq::<ProcessId>::empty(),
            final(self).names() == old(self).names(),
            is_subsequence(final(self).pending(), old(self).pending()),
            forall|j: int|
                0 <= j < final(self).pending().len() ==> old(self).ids().contains(
                    (#[trigger] final(self).pending()[j]).0.value(),
                ) && old(self).ids().contains(final(self).pending()[j].1.value()),
            old(self).deliveries().is_prefix_of(final(self).deliveries()),
            forall|k: int|
                old(self).deliveries().len() <= k < final(self).deliveries().len() ==> #[trigger] delivers_one_of(
                    final(self).deliveries()[k],
                    old(self).pending(),
                ),
            final(self).pending().len() + final(self).deliveries().len() - old(self).deliveries().len()
                == count_between(old(self).pending(), old(self).ids()),
    {
        let mut keys: Vec<u64> = Vec::new();
        for k in self.processes.keys() {
            keys.push(*k);
        }
        let mut drained: Vec<(ProcessId, Vec<Message>)> = Vec::new();
        let mut i: usize = 0;
        while i < keys.len()
            invariant
                i <= keys@.len(),
            decreases keys@.len() - i,
        {
            let pid = keys[i];
            i += 1;
            let msgs = match self.processes.get(&pid) {
                Some(proc) => proc.drain_inbox(),
                None => Vec::new(),
            };
            drained.push((ProcessId::from_value(pid), msgs));
        }
        let ghost all = old(self).removals() + drained_removals(drained@);
        self.finish_cleanup(drained);
        proof {
            assert forall|k: int| 0 <= k < old(self).removals().len() implies !self.ids().contains(
                #[trigger] old(self).removals()[k].value(),
            ) by {
                assert(all[k] == old(self).removals()[k]);
                assert(id_set(all).contains(all[k].value()));
            }
        }
    }

    /// One round of the runtime's work after the processes were polled:
    /// waiting requests, then new requests, then the clean-up. Hands back
    /// the processes started.
    pub fn step(&mut self) -> (r: Vec<Spawned>)
        ensures
            final(self).removals() == Seq::<ProcessId>::empty(),
            forall|i: int| 0 <= i < r@.len() ==> !old(self).ids().contains(#[trigger] r@[i].id.value()),
            forall|k: int|
                0 <= k < old(self).removals().len() ==> !final(self).ids().contains(
                    #[trigger] old(self).removals()[k].value(),
                ),
            forall|id: u64| #[trigger] final(self).ids().contains(id) ==> old(self).ids().contains(id)
                || exists|i: int| 0 <= i < r@.len() && r@[i].id.value() == id,
            old(self).names().is_prefix_of(final(self).names()),
    {
        self.handle_ip_requests();
        let ghost mid = self.removals();
        let out = self.handle_requests();
        proof {
            assert forall|k: int| 0 <= k < mid.len() implies #[trigger] mid[k] == self.removals()[k] by {
                assert(mid =~= self.removals().subrange(0, mid.len() as int));
            }
        }
        self.handle_cleanup();
        out
    }
}

impl RuntimeHandleInner {
    /// Queues `msg` from the runtime to the process.
    fn push_to_process(&self, msg: Message) {
        let (mut q, handle) = self.sending.acquire_write();
        q.push_back(msg);
        handle.release_write(q);
    }
}

/// A request made is taken once by the other side, and an answer given is
/// taken once by the side that asked; neither is taken as the other.
pub proof fn law_request_answer_once(m: Message)
    ensures
        take_request_step(Some((false, m))) == (None::<(bool, Message)>, Some(m)),
        take_request_step(None).1 is None,
        take_answer_step(Some((true, m))) == (None::<(bool, Message)>, Some(m)),
        take_answer_step(None).1 is None,
        take_answer_step(Some((false, m))).1 is None,
        take_request_step(Some((true, m))).1 is None,
{
}

/// A lookup of a name finds the process it was registered for last, whatever
/// the name was registered for before.
pub proof fn law_latest_registration_wins(names: Seq<(Seq<char>, ProcessId)>, name: Seq<char>, id: ProcessId)
    ensures
        last_named(names.push((name, id)), name) == Some(id),
        forall|other: Seq<char>|
            other != name ==> #[trigger] last_named(names.push((name, id)), other) == last_named(names, other),
{
    assert(names.push((name, id)).drop_last() =~= names);
}

/// What an answer about a process says: `Some(Some(id))` where it names the
/// process `id`, `Some(None)` where the process does not exist, and `None`
/// for a message that answers no such question.
pub fn process_answer(m: &Message) -> (r: Option<Option<ProcessId>>)
    ensures
        m is ReturnedId ==> r == Some(Some(m->ReturnedId_0)),
        m is ProcessDoesNotExist ==> r == Some(None::<ProcessId>),
        !(m is ReturnedId) && !(m is ProcessDoesNotExist) ==> r is None,
{
    match m {
        Message::ReturnedId(id) => Some(Some(*id)),
        Message::ProcessDoesNotExist => Some(None),
        _ => None,
    }
}

} // verus!
