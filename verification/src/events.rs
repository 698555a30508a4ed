//! The bookkeeping of the event loop: which subscribers and services are
//! registered under which identifiers, which daemons run and which objects
//! live, and the plain kinds of events and requests.
use vstd::prelude::*;
use std::collections::{BTreeMap, BTreeSet};
use crate::id_alloc::{has_free_from, least_free_from};
use crate::ids::{ServiceId, SubId};
use vstd::std_specs::iter::IteratorSpec;

verus! {

broadcast use {vstd::std_specs::btree::group_btree_axioms, vstd::laws_cmp::group_laws_cmp};

/// What a subscriber wants of an event: nothing, to look at it, or to take
/// it (after which no later subscriber sees it).
#[derive(Clone, Copy, Debug, PartialEq, Eq, Structural)]
pub enum EventRequest {
    Nothing,
    Shared,
    Owned,
}

/// A mouse event: a click with the button's state, or a move with the
/// state of every button.
#[derive(Clone, Copy, Debug, PartialEq, Eq, Structural)]
pub enum MouseInput {
    LeftClick { x: i32, y: i32, is_currently_down: bool },
    RightClick { x: i32, y: i32, is_currently_down: bool },
    MiddleClick { x: i32, y: i32, is_currently_down: bool },
    Move {
        start_x: i32,
        start_y: i32,
        end_x: i32,
        end_y: i32,
        is_left_down: bool,
        is_right_down: bool,
        is_middle_down: bool,
    },
}

/// The kinds of events the loop handles.
#[derive(Clone, Copy, Debug, PartialEq, Eq, Structural)]
pub enum EventType {
    CreateSubscriber,
    DestroySubscriber,
    CreateService,
    DestroyService,
    KeyBoardInput,
    MouseInput,
    TcpConnection,
    NotifyNewTcpConnection,
    TcpDisconnect,
    NetInput,
    HttpRequest,
    HttpResponse,
    NetOutput,
    UserDefined,
    CreateDaemon,
    RequestConnectionKill,
    RequestDaemonKill,
    RequestServiceKill,
    RequestKill,
    RequestSubscriberKill,
    DaemonCreated,
    Message,
    AllocObject,
    FreeObject,
}

/// Where the search for a free identifier starts: 0 for high priority,
/// 2048 otherwise.
pub open spec fn search_start(high_priority: bool) -> u64 {
    if high_priority {
        0
    } else {
        2048
    }
}

/// What the loop has registered.
#[verifier::ext_equal]
pub struct RegistryView<S, V, O> {
    pub subscribers: Map<u64, S>,
    pub services: Map<u64, V>,
    pub daemons: Set<u64>,
    pub objects: Map<u64, O>,
}

/// The subscribers `S`, services `V` and objects `O` of an event loop,
/// each under its identifier, and the identifiers of the running daemons.
pub struct Registry<S, V, O> {
    subscribers: BTreeMap<u64, S>,
    services: BTreeMap<u64, V>,
    daemons: BTreeSet<u64>,
    objects: BTreeMap<u64, O>,
}

impl<S, V, O> View for Registry<S, V, O> {
    type V = RegistryView<S, V, O>;

    closed spec fn view(&self) -> RegistryView<S, V, O> {
        RegistryView {
            subscribers: self.subscribers@,
            services: self.services@,
            daemons: self.daemons@,
            objects: self.objects@,
        }
    }
}

impl<S, V, O> Registry<S, V, O> {
    /// Nothing registered.
    pub fn new() -> (r: Self)
        ensures
            r@ == (RegistryView::<S, V, O> {
                subscribers: Map::empty(),
                services: Map::empty(),
                daemons: Set::empty(),
                objects: Map::empty(),
            }),
    {
        Registry {
            subscribers: BTreeMap::new(),
            services: BTreeMap::new(),
            daemons: BTreeSet::new(),
            objects: BTreeMap::new(),
        }
    }

    /// The identifier a new subscriber gets: the least free one from 0 (high
    /// priority) or from 2048 on. Some identifier below `u64::MAX` from there
    /// on must be free.
    pub fn subscriber_slot(&self, high_priority: bool) -> (r: SubId)
        requires
            has_free_from(self@.subscribers.dom(), search_start(high_priority)),
        ensures
            least_free_from(self@.subscribers.dom(), search_start(high_priority), r.value()),
            r.value() < u64::MAX,
    {
        let low: u64 = if high_priority {
            0
        } else {
            2048
        };
        let mut i: u64 = low;
        loop
            invariant
                low == search_start(high_priority),
                low <= i,
                has_free_from(self@.subscribers.dom(), low),
                forall|j: u64| low <= j < i ==> self@.subscribers.dom().contains(j),
            decreases u64::MAX - i,
        {
            proof {
                if i == u64::MAX {
                    let j = choose|j: u64|
                        low <= j < u64::MAX && !self@.subscribers.dom().contains(j);
                    assert(self@.subscribers.dom().contains(j));
                }
            }
            if !self.subscribers.contains_key(&i) {
                return SubId::with_value(i);
            }
            i = i + 1;
        }
    }

    /// Registers `s` under `id`, in place of any subscriber there.
    pub fn add_subscriber(&mut self, id: SubId, s: S)
        ensures
            final(self)@ == (RegistryView {
                subscribers: old(self)@.subscribers.insert(id.value(), s),
                ..old(self)@
            }),
    {
        self.subscribers.insert(id.inner(), s);
    }

    /// Unregisters the subscriber under `id` and returns it, if there is one.
    pub fn remove_subscriber(&mut self, id: SubId) -> (r: Option<S>)
        ensures
            final(self)@ == (RegistryView {
                subscribers: old(self)@.subscribers.remove(id.value()),
                ..old(self)@
            }),
            old(self)@.subscribers.contains_key(id.value()) ==> r == Some(
                old(self)@.subscribers[id.value()],
            ),
            !old(self)@.subscribers.contains_key(id.value()) ==> r is None,
    {
        self.subscribers.remove(&id.inner())
    }

    /// The identifiers of the subscribers, least first: the order in which
    /// they are offered events.
    pub fn subscriber_ids(&self) -> (r: Vec<SubId>)
        ensures
            r@.map_values(|x: SubId| x.value()).to_set() == self@.subscribers.dom(),
            r@.map_values(|x: SubId| x.value()).no_duplicates(),
            forall|i: int, j: int| 0 <= i < j < r@.len() ==> r@[i].value() < r@[j].value(),
    {
        let mut out: Vec<SubId> = Vec::new();
        let ghost ks = vstd::std_specs::btree::spec_keys_iter(&self.subscribers).remaining();
        let ghost mut n: int = 0;
        for k in it: self.subscribers.keys()
            invariant
                it.seq() == ks,
                n == it.index(),
                n <= ks.len(),
                out@.len() == n,
                forall|i: int| 0 <= i < n ==> (#[trigger] out@[i]).value() == *ks[i],
        {
            let id = SubId::with_value(*k);
            proof {
                assert(k == ks[n]);
                n = n + 1;
            }
            out.push(id);
        }
        proof {
            let vals = out@.map_values(|x: SubId| x.value());
            assert(n == ks.len());
            assert(vals =~= ks.unref());
            lemma_increasing_keys(ks);
        }
        out
    }

    /// The subscriber under `id`, to be changed in place, if there is one.
    pub fn subscriber_mut(&mut self, id: SubId) -> (r: Option<&mut S>)
        ensures
            old(self)@.subscribers.contains_key(id.value()) ==> r is Some && *r->0 == old(
                self,
            )@.subscribers[id.value()] && final(self)@ == (RegistryView {
                subscribers: old(self)@.subscribers.insert(id.value(), *final(r->0)),
                ..old(self)@
            }),
            !old(self)@.subscribers.contains_key(id.value()) ==> r is None && final(self)@ == old(
                self,
            )@,
    {
        crate::id_alloc::btree_get_mut(&mut self.subscribers, id.inner())
    }

    /// The identifier a new service gets: its search only ever tests its
    /// starting point, 0 (high priority) or 2048, so it ends there when that
    /// is free and runs through every `u64` otherwise; it must be free.
    pub fn service_slot(&self, high_priority: bool) -> (r: ServiceId)
        requires
            !self@.services.contains_key(search_start(high_priority)),
        ensures
            r.value() == search_start(high_priority),
    {
        if high_priority {
            ServiceId::with_value(0)
        } else {
            ServiceId::with_value(2048)
        }
    }

    /// Registers `v` under `id`, in place of any service there.
    pub fn add_service(&mut self, id: ServiceId, v: V)
        ensures
            final(self)@ == (RegistryView {
                services: old(self)@.services.insert(id.value(), v),
                ..old(self)@
            }),
    {
        self.services.insert(id.inner(), v);
    }

    /// Unregisters the service under `id` and returns it, if there is one.
    pub fn remove_service(&mut self, id: ServiceId) -> (r: Option<V>)
        ensures
            final(self)@ == (RegistryView {
                services: old(self)@.services.remove(id.value()),
                ..old(self)@
            }),
            old(self)@.services.contains_key(id.value()) ==> r == Some(
                old(self)@.services[id.value()],
            ),
            !old(self)@.services.contains_key(id.value()) ==> r is None,
    {
        self.services.remove(&id.inner())
    }

    /// The identifiers of the services, least first.
    pub fn service_ids(&self) -> (r: Vec<ServiceId>)
        ensures
            r@.map_values(|x: ServiceId| x.value()).to_set() == self@.services.dom(),
            r@.map_values(|x: ServiceId| x.value()).no_duplicates(),
            forall|i: int, j: int| 0 <= i < j < r@.len() ==> r@[i].value() < r@[j].value(),
    {
        let mut out: Vec<ServiceId> = Vec::new();
        let ghost ks = vstd::std_specs::btree::spec_keys_iter(&self.services).remaining();
        let ghost mut n: int = 0;
        for k in it: self.services.keys()
            invariant
                it.seq() == ks,
                n == it.index(),
                n <= ks.len(),
                out@.len() == n,
                forall|i: int| 0 <= i < n ==> (#[trigger] out@[i]).value() == *ks[i],
        {
            let id = ServiceId::with_value(*k);
            proof {
                assert(k == ks[n]);
                n = n + 1;
            }
            out.push(id);
        }
        proof {
            let vals = out@.map_values(|x: ServiceId| x.value());
            assert(n == ks.len());
            assert(vals =~= ks.unref());
            lemma_increasing_keys(ks);
        }
        out
    }

    /// The service under `id`, to be changed in place, if there is one.
    pub fn service_mut(&mut self, id: ServiceId) -> (r: Option<&mut V>)
        ensures
            old(self)@.services.contains_key(id.value()) ==> r is Some && *r->0 == old(
                self,
            )@.services[id.value()] && final(self)@ == (RegistryView {
                services: old(self)@.services.insert(id.value(), *final(r->0)),
                ..old(self)@
            }),
            !old(self)@.services.contains_key(id.value()) ==> r is None && final(self)@ == old(
                self,
            )@,
    {
        crate::id_alloc::btree_get_mut(&mut self.services, id.inner())
    }

    /// Records that the daemon `id` runs.
    pub fn add_daemon(&mut self, id: u64)
        ensures
            final(self)@ == (RegistryView { daemons: old(self)@.daemons.insert(id), ..old(self)@ }),
    {
        self.daemons.insert(id);
    }

    /// Whether the daemon `id` runs.
    pub fn has_daemon(&self, id: u64) -> (r: bool)
        ensures
            r == self@.daemons.contains(id),
    {
        self.daemons.contains(&id)
    }

    /// Forgets the daemon `id`.
    pub fn remove_daemon(&mut self, id: u64)
        ensures
            final(self)@ == (RegistryView { daemons: old(self)@.daemons.remove(id), ..old(self)@ }),
    {
        self.daemons.remove(&id);
    }

    /// Registers the object `o` under `id`, in place of any object there.
    pub fn add_object(&mut self, id: u64, o: O)
        ensures
            final(self)@ == (RegistryView { objects: old(self)@.objects.insert(id, o), ..old(self)@ }),
    {
        self.objects.insert(id, o);
    }

    /// Unregisters the object under `id` and returns it, if there is one.
    pub fn remove_object(&mut self, id: u64) -> (r: Option<O>)
        ensures
            final(self)@ == (RegistryView { objects: old(self)@.objects.remove(id), ..old(self)@ }),
            old(self)@.objects.contains_key(id) ==> r == Some(old(self)@.objects[id]),
            !old(self)@.objects.contains_key(id) ==> r is None,
    {
        self.objects.remove(&id)
    }

    /// The object under `id`, to be changed in place, if there is one.
    pub fn object_mut(&mut self, id: u64) -> (r: Option<&mut O>)
        ensures
            old(self)@.objects.contains_key(id) ==> r is Some && *r->0 == old(self)@.objects[id]
                && final(self)@ == (RegistryView {
                objects: old(self)@.objects.insert(id, *final(r->0)),
                ..old(self)@
            }),
            !old(self)@.objects.contains_key(id) ==> r is None && final(self)@ == old(self)@,
    {
        crate::id_alloc::btree_get_mut(&mut self.objects, id)
    }
}

/// Keys that a `BTreeMap` hands out in increasing order are increasing
/// integers.
proof fn lemma_increasing_keys(ks: Seq<&u64>)
    requires
        vstd::std_specs::btree::increasing_seq(ks),
    ensures
        forall|i: int, j: int| 0 <= i < j < ks.len() ==> *ks[i] < *ks[j],
{
    assert forall|i: int, j: int| 0 <= i < j < ks.len() implies *ks[i] < *ks[j] by {
        assert(vstd::std_specs::cmp::OrdSpec::cmp_spec(&ks[i], &ks[j]) is Less);
    }
}

/// A subscriber registered under the slot that `subscriber_slot` picks is
/// one more subscriber, and takes no other's place.
pub proof fn law_new_subscriber_takes_free_slot<S>(subs: Map<u64, S>, low: u64, id: u64, s: S)
    requires
        subs.dom().finite(),
        least_free_from(subs.dom(), low, id),
    ensures
        !subs.contains_key(id),
        subs.insert(id, s).dom().len() == subs.dom().len() + 1,
        forall|k: u64| subs.contains_key(k) ==> subs.insert(id, s)[k] == subs[k],
{
}

/// Removing a subscriber just added leaves the subscribers as they were.
pub proof fn law_remove_undoes_add<S>(subs: Map<u64, S>, id: u64, s: S)
    requires
        !subs.contains_key(id),
    ensures
        subs.insert(id, s).remove(id) == subs,
{
    assert(subs.insert(id, s).remove(id) =~= subs);
}

} // verus!
