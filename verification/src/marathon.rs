//! The bookkeeping of a two-way message channel: which incoming messages are
//! plain messages, which are requests that this side is to answer, and which
//! are the answers to requests that this side sent.
use vstd::prelude::*;
use std::collections::{BTreeMap, BTreeSet, VecDeque};
use crate::ids::{ArachneId, RequestId, ResponseId};

verus! {

broadcast use {vstd::std_specs::btree::group_btree_axioms, vstd::laws_cmp::group_laws_cmp};

/// A message on the channel. Identifier 0 marks a plain message; any other
/// identifier marks a request, or, with `is_response`, the answer to the
/// request that carried that identifier.
pub struct Message<T> {
    pub is_response: bool,
    pub id: u64,
    pub payload: T,
}

impl<T> Message<T> {
    /// A plain message: one that asks for no answer.
    pub fn plain(payload: T) -> (r: Self)
        ensures
            r == (Message { is_response: false, id: 0, payload }),
    {
        Message { is_response: false, id: 0, payload }
    }

    /// A request under the identifier `id`.
    pub fn request(id: ResponseId, payload: T) -> (r: Self)
        ensures
            r == (Message { is_response: false, id: id.id_value(), payload }),
    {
        Message { is_response: false, id: id.get(), payload }
    }

    /// The answer to the request `to`.
    pub fn response(to: RequestId, payload: T) -> (r: Self)
        ensures
            r == (Message { is_response: true, id: to.id_value(), payload }),
    {
        Message { is_response: true, id: to.get(), payload }
    }
}

/// What one side of the channel knows: the answers that arrived and are not
/// yet taken, the requests that arrived and are not yet taken, the requests
/// sent whose answers are awaited, the requests received that are not yet
/// answered, and the plain messages in the order they came.
#[verifier::ext_equal]
pub struct ControlView<T> {
    pub responses: Map<u64, T>,
    pub requests: Map<u64, T>,
    pub waiting: Set<u64>,
    pub answering: Set<u64>,
    pub buffered: Seq<T>,
}

/// The state after `m` arrives in state `s`: a plain message is queued; an
/// answer is kept if it is awaited and dropped otherwise; a request is kept
/// and marked as owing an answer.
pub open spec fn filed<T>(s: ControlView<T>, m: Message<T>) -> ControlView<T> {
    if m.id == 0 {
        ControlView { buffered: s.buffered.push(m.payload), ..s }
    } else if m.is_response {
        if s.waiting.contains(m.id) {
            ControlView {
                responses: s.responses.insert(m.id, m.payload),
                waiting: s.waiting.remove(m.id),
                ..s
            }
        } else {
            s
        }
    } else {
        ControlView {
            requests: s.requests.insert(m.id, m.payload),
            answering: s.answering.insert(m.id),
            ..s
        }
    }
}

/// The state after the messages `ms` arrive in order in state `s`.
pub open spec fn filed_all<T>(s: ControlView<T>, ms: Seq<Message<T>>) -> ControlView<T>
    decreases ms.len(),
{
    if ms.len() == 0 {
        s
    } else {
        filed(filed_all(s, ms.drop_last()), ms.last())
    }
}

/// Whether `i` cannot name a new request: an answer under it is awaited or
/// waiting to be taken.
pub open spec fn response_id_taken<T>(s: ControlView<T>, i: u64) -> bool {
    s.responses.contains_key(i) || s.waiting.contains(i)
}

/// The identifier that a new request gets: the least positive one that is
/// not taken, or `u64::MAX` where every positive one is.
pub open spec fn next_response_id<T>(s: ControlView<T>, r: u64) -> bool {
    &&& (exists|j: u64| 1 <= j && !response_id_taken(s, j)) ==> {
        &&& 1 <= r
        &&& !response_id_taken(s, r)
        &&& forall|j: u64| 1 <= j < r ==> response_id_taken(s, j)
    }
    &&& (forall|j: u64| 1 <= j ==> response_id_taken(s, j)) ==> r == u64::MAX
}

/// `BTreeMap::pop_first`: removes and returns the entry with the least key,
/// and returns `None` where the map is empty. The contract claims what the
/// standard library's documentation states of it.
#[verifier::external_body]
fn btree_pop_first<V>(map: &mut BTreeMap<u64, V>) -> (r: Option<(u64, V)>)
    ensures
        match r {
            Some((k, v)) => {
                &&& old(map)@.contains_key(k)
                &&& old(map)@[k] == v
                &&& forall|j: u64| old(map)@.contains_key(j) ==> k <= j
                &&& final(map)@ == old(map)@.remove(k)
            },
            None => old(map)@ == Map::<u64, V>::empty() && final(map)@ == old(map)@,
        },
{
    map.pop_first()
}

/// One side's bookkeeping of the channel.
pub struct ArachneControl<T> {
    received_responses: BTreeMap<u64, T>,
    received_requests: BTreeMap<u64, T>,
    waiting_for: BTreeSet<u64>,
    other_waiting_for: BTreeSet<u64>,
    buffer: VecDeque<T>,
}

impl<T> View for ArachneControl<T> {
    type V = ControlView<T>;

    closed spec fn view(&self) -> ControlView<T> {
        ControlView {
            responses: self.received_responses@,
            requests: self.received_requests@,
            waiting: self.waiting_for@,
            answering: self.other_waiting_for@,
            buffered: self.buffer@,
        }
    }
}

impl<T> ArachneControl<T> {
    /// Nothing received, nothing awaited.
    pub fn new() -> (r: Self)
        ensures
            r@ == (ControlView::<T> {
                responses: Map::empty(),
                requests: Map::empty(),
                waiting: Set::empty(),
                answering: Set::empty(),
                buffered: Seq::empty(),
            }),
    {
        ArachneControl {
            received_responses: BTreeMap::new(),
            received_requests: BTreeMap::new(),
            waiting_for: BTreeSet::new(),
            other_waiting_for: BTreeSet::new(),
            buffer: VecDeque::new(),
        }
    }

    /// Files one incoming message.
    pub fn file(&mut self, m: Message<T>)
        ensures
            final(self)@ == filed(old(self)@, m),
    {
        if m.id != 0 {
            if m.is_response {
                if self.waiting_for.contains(&m.id) {
                    self.waiting_for.remove(&m.id);
                    self.received_responses.insert(m.id, m.payload);
                }
            } else {
                self.other_waiting_for.insert(m.id);
                self.received_requests.insert(m.id, m.payload);
            }
        } else {
            self.buffer.push_back(m.payload);
        }
    }

    /// Files the incoming messages `ms` in order.
    pub fn file_all(&mut self, ms: Vec<Message<T>>)
        ensures
            final(self)@ == filed_all(old(self)@, ms@),
    {
        let ghost all = ms@;
        let mut ms = ms;
        let total: usize = ms.len();
        let mut n: usize = 0;
        proof {
            assert(all.subrange(0, 0) =~= Seq::<Message<T>>::empty());
            assert(all.subrange(0, all.len() as int) =~= all);
        }
        while ms.len() > 0
            invariant
                n + ms.len() == all.len(),
                all.len() == total,
                ms@ == all.subrange(n as int, all.len() as int),
                self@ == filed_all(old(self)@, all.subrange(0, n as int)),
            decreases ms.len(),
        {
            let m = ms.remove(0);
            proof {
                assert(m == all[n as int]);
                assert(all.subrange(0, n + 1).drop_last() == all.subrange(0, n as int));
            }
            self.file(m);
            n = n + 1;
            assert(ms@ == all.subrange(n as int, all.len() as int));
        }
        proof {
            assert(all.subrange(0, n as int) == all);
        }
    }

    /// Takes the oldest plain message.
    pub fn pop_buffered(&mut self) -> (r: Option<T>)
        ensures
            old(self)@.buffered.len() == 0 ==> r is None && final(self)@ == old(self)@,
            old(self)@.buffered.len() > 0 ==> r == Some(old(self)@.buffered[0]) && final(self)@
                == (ControlView { buffered: old(self)@.buffered.drop_first(), ..old(self)@ }),
    {
        self.buffer.pop_front()
    }

    /// Takes the received request with the least identifier.
    pub fn pop_request(&mut self) -> (r: Option<(RequestId, T)>)
        ensures
            old(self)@.requests == Map::<u64, T>::empty() ==> r is None && final(self)@ == old(
                self,
            )@,
            match r {
                Some((id, v)) => {
                    &&& old(self)@.requests.contains_key(id.id_value())
                    &&& old(self)@.requests[id.id_value()] == v
                    &&& forall|j: u64| old(self)@.requests.contains_key(j) ==> id.id_value() <= j
                    &&& final(self)@ == (ControlView {
                        requests: old(self)@.requests.remove(id.id_value()),
                        ..old(self)@
                    })
                },
                None => old(self)@.requests == Map::<u64, T>::empty(),
            },
    {
        match btree_pop_first(&mut self.received_requests) {
            Some((k, v)) => Some((RequestId::create(k), v)),
            None => None,
        }
    }

    /// Takes the received answer with the least identifier.
    pub fn pop_response(&mut self) -> (r: Option<(ResponseId, T)>)
        ensures
            old(self)@.responses == Map::<u64, T>::empty() ==> r is None && final(self)@ == old(
                self,
            )@,
            match r {
                Some((id, v)) => {
                    &&& old(self)@.responses.contains_key(id.id_value())
                    &&& old(self)@.responses[id.id_value()] == v
                    &&& forall|j: u64| old(self)@.responses.contains_key(j) ==> id.id_value() <= j
                    &&& final(self)@ == (ControlView {
                        responses: old(self)@.responses.remove(id.id_value()),
                        ..old(self)@
                    })
                },
                None => old(self)@.responses == Map::<u64, T>::empty(),
            },
    {
        match btree_pop_first(&mut self.received_responses) {
            Some((k, v)) => Some((ResponseId::create(k), v)),
            None => None,
        }
    }

    /// Takes the answer to the request `id`, where it has arrived.
    pub fn take_response(&mut self, id: ResponseId) -> (r: Option<T>)
        ensures
            old(self)@.responses.contains_key(id.id_value()) ==> r == Some(
                old(self)@.responses[id.id_value()],
            ),
            !old(self)@.responses.contains_key(id.id_value()) ==> r is None,
            final(self)@ == (ControlView {
                responses: old(self)@.responses.remove(id.id_value()),
                ..old(self)@
            }),
    {
        self.received_responses.remove(&id.get())
    }

    /// Whether the answer to the request `id` is still awaited.
    pub fn is_waiting_for(&self, id: ResponseId) -> (r: bool)
        ensures
            r == self@.waiting.contains(id.id_value()),
    {
        self.waiting_for.contains(&id.get())
    }

    /// Whether the request `to` has arrived and is not answered yet.
    pub fn is_answering(&self, to: RequestId) -> (r: bool)
        ensures
            r == self@.answering.contains(to.id_value()),
    {
        self.other_waiting_for.contains(&to.get())
    }

    /// The identifier for a new request: the least positive one under which
    /// no answer is awaited or waiting, or `u64::MAX` where there is none.
    pub fn choose_response_id(&self) -> (r: ResponseId)
        ensures
            next_response_id(self@, r.id_value()),
    {
        let mut i: u64 = 1;
        loop
            invariant
                1 <= i,
                forall|j: u64| 1 <= j < i ==> response_id_taken(self@, j),
            decreases u64::MAX - i,
        {
            if !self.received_responses.contains_key(&i) && !self.waiting_for.contains(&i) {
                return ResponseId::create(i);
            }
            if i == u64::MAX {
                return ResponseId::create(i);
            }
            i = i + 1;
        }
    }

    /// Marks the answer to the request `id` as awaited.
    pub fn register_request(&mut self, id: ResponseId)
        ensures
            final(self)@ == (ControlView { waiting: old(self)@.waiting.insert(id.id_value()), ..old(self)@ }),
    {
        self.waiting_for.insert(id.get());
    }

    /// Marks the request `to` as answered and builds the answer. The request
    /// must be one that arrived and is not answered yet.
    pub fn answer(&mut self, to: RequestId, payload: T) -> (r: Message<T>)
        requires
            old(self)@.answering.contains(to.id_value()),
        ensures
            r == (Message { is_response: true, id: to.id_value(), payload }),
            final(self)@ == (ControlView {
                answering: old(self)@.answering.remove(to.id_value()),
                ..old(self)@
            }),
    {
        self.other_waiting_for.remove(&to.get());
        Message::response(to, payload)
    }
}

/// An answer to an awaited request is kept under the request's identifier,
/// and the request is no longer awaited.
pub proof fn law_awaited_answer_is_kept<T>(s: ControlView<T>, id: u64, payload: T)
    requires
        id != 0,
        s.waiting.contains(id),
    ensures
        ({
            let t = filed(s, Message { is_response: true, id, payload });
            &&& t.responses.contains_key(id)
            &&& t.responses[id] == payload
            &&& !t.waiting.contains(id)
        }),
{
}

/// An answer that nothing awaits changes nothing.
pub proof fn law_unawaited_answer_is_dropped<T>(s: ControlView<T>, id: u64, payload: T)
    requires
        id != 0,
        !s.waiting.contains(id),
    ensures
        filed(s, Message { is_response: true, id, payload }) == s,
{
}

/// A request is kept under its identifier and owes an answer.
pub proof fn law_request_owes_answer<T>(s: ControlView<T>, id: u64, payload: T)
    requires
        id != 0,
    ensures
        ({
            let t = filed(s, Message { is_response: false, id, payload });
            &&& t.requests.contains_key(id)
            &&& t.requests[id] == payload
            &&& t.answering.contains(id)
        }),
{
}

/// Plain messages are queued in the order they arrive, and leave the rest of
/// the state as it was.
pub proof fn law_plain_messages_keep_order<T>(s: ControlView<T>, ms: Seq<Message<T>>)
    requires
        forall|i: int| 0 <= i < ms.len() ==> (#[trigger] ms[i]).id == 0,
    ensures
        filed_all(s, ms) == (ControlView {
            buffered: s.buffered + ms.map_values(|m: Message<T>| m.payload),
            ..s
        }),
    decreases ms.len(),
{
    if ms.len() == 0 {
        assert(s.buffered + ms.map_values(|m: Message<T>| m.payload) =~= s.buffered);
    } else {
        let init = ms.drop_last();
        assert forall|i: int| 0 <= i < init.len() implies (#[trigger] init[i]).id == 0 by {
            assert(init[i] == ms[i]);
        }
        law_plain_messages_keep_order(s, init);
        assert(ms.last().id == 0);
        assert(s.buffered + ms.map_values(|m: Message<T>| m.payload) =~= (s.buffered
            + init.map_values(|m: Message<T>| m.payload)).push(ms.last().payload));
    }
}

/// A request sent under the identifier that `choose_response_id` picks, and
/// then answered, leaves that answer to be taken: the identifier was free, so
/// no earlier answer is overwritten, and the answer is not dropped.
pub proof fn law_answer_to_new_request_is_kept<T>(s: ControlView<T>, id: u64, payload: T)
    requires
        exists|j: u64| 1 <= j && !response_id_taken(s, j),
        next_response_id(s, id),
    ensures
        !s.responses.contains_key(id),
        ({
            let sent = ControlView { waiting: s.waiting.insert(id), ..s };
            let t = filed(sent, Message { is_response: true, id, payload });
            &&& t.responses == s.responses.insert(id, payload)
            &&& t.waiting == s.waiting
        }),
{
    let sent = ControlView { waiting: s.waiting.insert(id), ..s };
    assert(sent.waiting.remove(id) =~= s.waiting);
}

} // verus!
