//! Handles that threads share: a slot written once, a pipe with two ends,
//! a shared cell and a spin lock.
//!
//! The values behind these handles are changed by every thread that holds
//! one, so what a call reads back depends on what the other threads did in
//! the meantime. The contracts here state what holds whatever they did: which
//! handles share one store, and what one step does to the store while it is
//! held.
use vstd::prelude::*;
use vstd::rwlock::{RwLock, RwLockPredicate};
use std::collections::VecDeque;
use std::sync::Arc;
use std::sync::atomic::AtomicBool;
use crate::error::{ErrorValue, Exception, Throws};

verus! {

/// The lock predicate of the stores in this module: any value may be stored.
pub struct AnyValue {}

impl<V> RwLockPredicate<V> for AnyValue {
    open spec fn inv(self, v: V) -> bool {
        true
    }
}

/// Whether `e` is the error of an operation on a closed pipe: the message
/// "done".
pub open spec fn is_closed_error(e: ErrorValue) -> bool {
    e matches ErrorValue::Message(m) && m@ == seq!['d', 'o', 'n', 'e']
}

/// One of two handles on a slot that is written once and read once.
pub struct WriteOnce<T> {
    v: Arc<RwLock<Option<T>, AnyValue>>,
}

/// A pending read of a `WriteOnce` slot, to be polled until it gives a value.
pub struct WriteOnceRead<T> {
    v: Arc<RwLock<Option<T>, AnyValue>>,
}

/// The step of a read: the value in the slot is taken and the slot left empty.
pub open spec fn take_step<T>(slot: Option<T>) -> (Option<T>, Option<T>) {
    (None, slot)
}

impl<T> WriteOnce<T> {
    /// The slot that this handle writes to and reads from.
    pub closed spec fn slot(&self) -> RwLock<Option<T>, AnyValue> {
        *self.v
    }

    /// Two handles on one new, empty slot.
    pub fn create() -> (r: (Self, Self))
        ensures
            r.0.slot() == r.1.slot(),
    {
        let v = Arc::new(RwLock::new(None, Ghost(AnyValue {})));
        let w = v.clone();
        (WriteOnce { v }, WriteOnce { v: w })
    }

    /// Puts `value` into the slot, in place of what it held.
    pub fn write(self, value: T) {
        let (_old, handle) = self.v.acquire_write();
        handle.release_write(Some(value));
    }

    /// Takes the value out of the slot, leaving it empty; `None` when nothing
    /// was written since the last read.
    pub fn try_read(&self) -> Option<T> {
        let (value, handle) = self.v.acquire_write();
        let (rest, out) = take_value(value);
        handle.release_write(rest);
        out
    }

    /// A read of the slot that can be polled until a value arrives.
    pub fn read(&self) -> (r: WriteOnceRead<T>)
        ensures
            r.slot() == self.slot(),
    {
        WriteOnceRead { v: self.v.clone() }
    }
}

/// Splits a slot's value into what stays and what is handed out.
fn take_value<T>(slot: Option<T>) -> (r: (Option<T>, Option<T>))
    ensures
        r == take_step(slot),
{
    (None, slot)
}

impl<T> WriteOnceRead<T> {
    /// The slot that this read takes its value from.
    pub closed spec fn slot(&self) -> RwLock<Option<T>, AnyValue> {
        *self.v
    }

    /// Takes the value out of the slot if one was written; `None` means that
    /// the read is still pending.
    pub fn poll(&self) -> Option<T> {
        let (value, handle) = self.v.acquire_write();
        let (rest, out) = take_value(value);
        handle.release_write(rest);
        out
    }
}

/// One end of a two-way pipe: what one end sends, the other receives, in the
/// order it was sent.
pub struct BPipe<T> {
    sending: Arc<RwLock<VecDeque<T>, AnyValue>>,
    recieving: Arc<RwLock<VecDeque<T>, AnyValue>>,
    done: Arc<AtomicBool>,
}

/// A pending receive on a pipe, to be polled until it gives a value.
pub struct BPipeRead<T> {
    reciever: Arc<RwLock<VecDeque<T>, AnyValue>>,
    done: Arc<AtomicBool>,
}

/// The step of a send: the value joins the back of the queue.
pub open spec fn send_step<T>(queue: Seq<T>, v: T) -> Seq<T> {
    queue.push(v)
}

/// The step of a receive: the front of the queue is handed out, if any.
pub open spec fn receive_step<T>(queue: Seq<T>) -> (Seq<T>, Option<T>) {
    if queue.len() == 0 {
        (queue, None)
    } else {
        (queue.drop_first(), Some(queue[0]))
    }
}

/// Adds `v` to the back of `queue`.
fn push_value<T>(queue: &mut VecDeque<T>, v: T)
    ensures
        final(queue)@ == send_step(old(queue)@, v),
{
    queue.push_back(v);
}

/// Takes the front of `queue`, if it has one.
fn pop_value<T>(queue: &mut VecDeque<T>) -> (r: Option<T>)
    ensures
        (final(queue)@, r) == receive_step(old(queue)@),
{
    queue.pop_front()
}

/// Takes everything out of `queue`, front first.
fn drain_values<T>(queue: &mut VecDeque<T>) -> (r: Vec<T>)
    ensures
        r@ == old(queue)@,
        final(queue)@.len() == 0,
{
    let mut out: Vec<T> = Vec::new();
    let ghost start = queue@;
    while queue.len() > 0
        invariant
            out@ + queue@ == start,
        decreases queue@.len(),
    {
        let x = queue.pop_front();
        match x {
            Some(v) => {
                proof {
                    assert(out@.push(v) + queue@ =~= start);
                }
                out.push(v);
            },
            None => {},
        }
    }
    assert(out@ + queue@ =~= out@);
    out
}

impl<T> BPipe<T> {
    /// The queue that this end sends into.
    pub closed spec fn outbox(&self) -> RwLock<VecDeque<T>, AnyValue> {
        *self.sending
    }

    /// The queue that this end receives from.
    pub closed spec fn inbox(&self) -> RwLock<VecDeque<T>, AnyValue> {
        *self.recieving
    }

    /// The flag that marks the pipe as closed.
    pub closed spec fn closed_flag(&self) -> AtomicBool {
        *self.done
    }

    /// The two ends of a new, open pipe.
    pub fn create() -> (r: (BPipe<T>, BPipe<T>))
        ensures
            r.0.outbox() == r.1.inbox(),
            r.0.inbox() == r.1.outbox(),
            r.0.closed_flag() == r.1.closed_flag(),
    {
        let p1 = Arc::new(RwLock::new(VecDeque::new(), Ghost(AnyValue {})));
        let p2 = Arc::new(RwLock::new(VecDeque::new(), Ghost(AnyValue {})));
        let done = Arc::new(AtomicBool::new(false));
        let out1 = BPipe { sending: p1.clone(), recieving: p2.clone(), done: done.clone() };
        let out2 = BPipe { sending: p2, recieving: p1, done };
        (out1, out2)
    }

    /// Whether either end has closed the pipe.
    fn is_closed(&self) -> bool {
        self.done.load(std::sync::atomic::Ordering::Acquire)
    }

    /// Closes the pipe for both ends; the ends call it when they are
    /// dropped.
    pub fn close(&self) {
        self.done.store(true, std::sync::atomic::Ordering::Release);
    }

    /// Sends `v` to the other end; an error when the pipe is closed.
    pub fn send(&self, v: T) -> (r: Throws<()>)
        ensures
            r matches Err(e) ==> is_closed_error(e.error),
    {
        if self.is_closed() {
            return Err(Exception::message(closed_text()));
        }
        let (mut queue, handle) = self.sending.acquire_write();
        push_value(&mut queue, v);
        handle.release_write(queue);
        Ok(())
    }

    /// The oldest value that the other end sent and that was not received
    /// yet, or `None`; an error when the pipe is closed.
    pub fn recieve(&self) -> (r: Throws<Option<T>>)
        ensures
            r matches Err(e) ==> is_closed_error(e.error),
    {
        if self.is_closed() {
            return Err(Exception::message(closed_text()));
        }
        let (mut queue, handle) = self.recieving.acquire_write();
        let out = pop_value(&mut queue);
        handle.release_write(queue);
        Ok(out)
    }

    /// Every value that the other end sent and that was not received yet,
    /// oldest first; an error when the pipe is closed.
    pub fn receive_buffer(&self) -> (r: Throws<Vec<T>>)
        ensures
            r matches Err(e) ==> is_closed_error(e.error),
    {
        if self.is_closed() {
            return Err(Exception::message(closed_text()));
        }
        let (mut queue, handle) = self.recieving.acquire_write();
        let out = drain_values(&mut queue);
        handle.release_write(queue);
        Ok(out)
    }

    /// A receive that can be polled until a value arrives.
    pub fn recieve_async(&self) -> (r: BPipeRead<T>)
        ensures
            r.queue() == self.inbox(),
            r.closed_flag() == self.closed_flag(),
    {
        BPipeRead { reciever: self.recieving.clone(), done: self.done.clone() }
    }
}

impl<T> BPipeRead<T> {
    /// The queue that this receive takes its value from.
    pub closed spec fn queue(&self) -> RwLock<VecDeque<T>, AnyValue> {
        *self.reciever
    }

    /// The flag that marks the pipe as closed.
    pub closed spec fn closed_flag(&self) -> AtomicBool {
        *self.done
    }

    /// `Some` with the oldest value not received yet, or with an error when
    /// the pipe is closed; `None` while the receive is pending.
    pub fn poll(&self) -> (r: Option<Throws<T>>)
        ensures
            r matches Some(Err(e)) ==> is_closed_error(e.error),
    {
        if self.done.load(std::sync::atomic::Ordering::Acquire) {
            return Some(Err(Exception::message(closed_text())));
        }
        let (mut queue, handle) = self.reciever.acquire_write();
        let out = pop_value(&mut queue);
        handle.release_write(queue);
        match out {
            Some(x) => Some(Ok(x)),
            None => None,
        }
    }
}

/// The message of the error of a closed pipe.
fn closed_text() -> (r: String)
    ensures
        is_closed_error(ErrorValue::Message(r)),
{
    let s = "done".to_owned();
    proof {
        reveal_strlit("done");
        assert(s@ =~= seq!['d', 'o', 'n', 'e']);
    }
    s
}

/// A value that several threads read and replace.
pub struct Shared<T> {
    inner: Arc<RwLock<T, AnyValue>>,
}

impl<T> Shared<T> {
    /// The store that this handle reads and replaces.
    pub closed spec fn store(&self) -> RwLock<T, AnyValue> {
        *self.inner
    }

    pub fn new(value: T) -> (r: Self) {
        Shared { inner: Arc::new(RwLock::new(value, Ghost(AnyValue {}))) }
    }

    /// Replaces the value with `v`.
    pub fn shared_store_copy(&self, v: T) {
        let (_old, handle) = self.inner.acquire_write();
        handle.release_write(v);
    }
}

impl<T: Clone> Shared<T> {
    /// A clone of the value.
    pub fn shared_get_copy(&self) -> T {
        let handle = self.inner.acquire_read();
        let out = handle.borrow().clone();
        handle.release_read();
        out
    }
}

/// A value behind a lock; each operation holds the lock while it runs.
pub struct SpinLock<T> {
    cell: RwLock<T, AnyValue>,
    lock: AtomicBool,
}

/// The value of a `SpinLock`, held until `release` puts it back; while it
/// is held the lock is marked busy.
pub struct Lock<'a, T> {
    value: T,
    handle: vstd::rwlock::WriteHandle<'a, T, AnyValue>,
    busy: &'a AtomicBool,
}

impl<'a, T> Lock<'a, T> {
    /// The value held.
    pub closed spec fn held(&self) -> T {
        self.value
    }

    /// The store that `release` puts the held value back into.
    pub closed spec fn store(&self) -> RwLock<T, AnyValue> {
        self.handle.rwlock()
    }

    /// The held value.
    pub fn get(&self) -> (r: &T)
        ensures
            *r == self.held(),
    {
        &self.value
    }

    /// Replaces the held value with `v`.
    pub fn set(&mut self, v: T)
        ensures
            final(self).held() == v,
    {
        self.value = v;
    }

    /// Puts the held value back, clears the busy mark and lets other
    /// threads at it.
    pub fn release(self) {
        self.busy.store(false, std::sync::atomic::Ordering::SeqCst);
        self.handle.release_write(self.value);
    }
}

impl<T> SpinLock<T> {
    /// The store behind the lock.
    pub closed spec fn cell_store(&self) -> RwLock<T, AnyValue> {
        self.cell
    }

    pub fn new(value: T) -> (r: Self) {
        SpinLock { cell: RwLock::new(value, Ghost(AnyValue {})), lock: AtomicBool::new(false) }
    }

    /// Waits for the lock, marks it busy and holds the value.
    pub fn lock(&self) -> (r: Lock<'_, T>)
        ensures
            r.store() == self.cell_store(),
    {
        let (value, handle) = self.cell.acquire_write();
        self.lock.store(true, std::sync::atomic::Ordering::SeqCst);
        Lock { value, handle, busy: &self.lock }
    }

    /// Holds the value where the lock is not busy; `None`, at once, where it
    /// is.
    pub fn try_lock(&self) -> (r: Option<Lock<'_, T>>)
        ensures
            r matches Some(l) ==> l.store() == self.cell_store(),
    {
        if self.try_mark_locked() {
            let (value, handle) = self.cell.acquire_write();
            Some(Lock { value, handle, busy: &self.lock })
        } else {
            None
        }
    }

    /// Marks the lock busy; false when it already is.
    fn try_mark_locked(&self) -> bool {
        let r = self.lock.compare_exchange(
            false,
            true,
            std::sync::atomic::Ordering::SeqCst,
            std::sync::atomic::Ordering::SeqCst,
        );
        r.is_ok()
    }

    fn mark_unlocked(&self) {
        self.lock.store(false, std::sync::atomic::Ordering::SeqCst);
    }

    /// Waits for the lock and replaces the value with `value`.
    pub fn store(&self, value: T) {
        let mut l = self.lock();
        l.set(value);
        l.release();
    }

    /// Replaces the value with `value` and gives `None`, or gives `value`
    /// back when the lock is busy.
    pub fn try_store(&self, value: T) -> (r: Option<T>)
        ensures
            r matches Some(v) ==> v == value,
    {
        if self.try_mark_locked() {
            let (_old, handle) = self.cell.acquire_write();
            handle.release_write(value);
            self.mark_unlocked();
            None
        } else {
            Some(value)
        }
    }
}

impl<T: Default> SpinLock<T> {
    /// Waits for the lock and takes the value out, leaving the default value
    /// in its place.
    pub fn take(&self) -> T {
        let (value, handle) = self.cell.acquire_write();
        self.lock.store(true, std::sync::atomic::Ordering::SeqCst);
        self.mark_unlocked();
        handle.release_write(T::default());
        value
    }

    /// Takes the value out, leaving the default value in its place; `None`
    /// when the lock is busy.
    pub fn try_take(&self) -> Option<T> {
        if self.try_mark_locked() {
            let (value, handle) = self.cell.acquire_write();
            handle.release_write(T::default());
            self.mark_unlocked();
            Some(value)
        } else {
            None
        }
    }
}

impl<T: Clone> SpinLock<T> {
    /// Waits for the lock and gives a clone of the value.
    pub fn get(&self) -> T {
        let (value, handle) = self.cell.acquire_write();
        self.lock.store(true, std::sync::atomic::Ordering::SeqCst);
        let out = value.clone();
        self.mark_unlocked();
        handle.release_write(value);
        out
    }

    /// A clone of the value; `None` when the lock is busy.
    pub fn try_get(&self) -> Option<T> {
        if self.try_mark_locked() {
            let handle = self.cell.acquire_read();
            let out = handle.borrow().clone();
            handle.release_read();
            self.mark_unlocked();
            Some(out)
        } else {
            None
        }
    }
}

/// The state behind a [`SharedList`]: the items, whether they changed since
/// the change was last consumed, and the lock mark.
pub struct SharedListInner<T> {
    mutated: bool,
    locked: bool,
    list: Vec<T>,
}

impl<T> SharedListInner<T> {
    /// The items.
    pub closed spec fn items(&self) -> Seq<T> {
        self.list@
    }

    /// Whether the items changed since the change was last consumed.
    pub closed spec fn is_mutated(&self) -> bool {
        self.mutated
    }

    /// The lock mark.
    pub closed spec fn is_locked(&self) -> bool {
        self.locked
    }

    /// An empty, unchanged, unlocked list.
    pub fn new() -> (r: Self)
        ensures
            r.items() == Seq::<T>::empty(),
            !r.is_mutated(),
            !r.is_locked(),
    {
        SharedListInner { mutated: false, locked: false, list: Vec::new() }
    }

    /// Appends `v` and marks the list changed.
    pub fn push(&mut self, v: T)
        ensures
            final(self).items() == old(self).items().push(v),
            final(self).is_mutated(),
            final(self).is_locked() == old(self).is_locked(),
    {
        self.list.push(v);
        self.mutated = true;
    }

    /// Removes the last item, if any, and marks the list changed.
    pub fn pop(&mut self) -> (r: Option<T>)
        ensures
            old(self).items().len() == 0 ==> r is None && final(self).items() == old(self).items(),
            old(self).items().len() > 0 ==> r == Some(old(self).items().last()) && final(self).items()
                == old(self).items().drop_last(),
            final(self).is_mutated(),
            final(self).is_locked() == old(self).is_locked(),
    {
        self.mutated = true;
        self.list.pop()
    }

    /// Whether the list changed since the last call; the change is consumed.
    pub fn consume_mutation(&mut self) -> (r: bool)
        ensures
            r == old(self).is_mutated(),
            !final(self).is_mutated(),
            final(self).items() == old(self).items(),
            final(self).is_locked() == old(self).is_locked(),
    {
        if self.mutated {
            self.mutated = false;
            true
        } else {
            false
        }
    }

    /// Inserts `value` before item `index` when there is such an item, and
    /// marks the list changed; gives `value` back otherwise.
    pub fn insert(&mut self, index: usize, value: T) -> (r: Option<T>)
        ensures
            index >= old(self).items().len() ==> r == Some(value) && final(self).items() == old(
                self,
            ).items() && final(self).is_mutated() == old(self).is_mutated(),
            index < old(self).items().len() ==> r is None && final(self).items() == old(
                self,
            ).items().insert(index as int, value) && final(self).is_mutated(),
            final(self).is_locked() == old(self).is_locked(),
    {
        if self.list.len() <= index {
            Some(value)
        } else {
            self.mutated = true;
            self.list.insert(index, value);
            None
        }
    }

    /// Puts `value` in place of item `index` and gives the old item back,
    /// marking the list changed; gives `value` back as an error when there is
    /// no such item.
    pub fn replace(&mut self, index: usize, value: T) -> (r: Result<T, T>)
        ensures
            index >= old(self).items().len() ==> r == Err::<T, T>(value) && final(self).items()
                == old(self).items() && final(self).is_mutated() == old(self).is_mutated(),
            index < old(self).items().len() ==> r == Ok::<T, T>(old(self).items()[index as int])
                && final(self).items() == old(self).items().update(index as int, value)
                && final(self).is_mutated(),
            final(self).is_locked() == old(self).is_locked(),
    {
        if self.list.len() <= index {
            Err(value)
        } else {
            let mut v = value;
            std::mem::swap(&mut v, &mut self.list[index]);
            self.mutated = true;
            Ok(v)
        }
    }

    /// Removes and gives back item `index`, marking the list changed; `None`
    /// when there is no such item.
    pub fn remove(&mut self, index: usize) -> (r: Option<T>)
        ensures
            index >= old(self).items().len() ==> r is None && final(self).items() == old(
                self,
            ).items() && final(self).is_mutated() == old(self).is_mutated(),
            index < old(self).items().len() ==> r == Some(old(self).items()[index as int])
                && final(self).items() == old(self).items().remove(index as int)
                && final(self).is_mutated(),
            final(self).is_locked() == old(self).is_locked(),
    {
        if self.list.len() <= index {
            None
        } else {
            self.mutated = true;
            Some(self.list.remove(index))
        }
    }

    /// Clears the lock mark.
    pub fn clear_lock(&mut self)
        ensures
            !final(self).is_locked(),
            final(self).items() == old(self).items(),
            final(self).is_mutated() == old(self).is_mutated(),
    {
        self.locked = false;
    }
}

impl<T: Clone> SharedListInner<T> {
    /// A clone of item `index`, if there is one.
    pub fn get(&self, index: usize) -> (r: Option<T>)
        ensures
            index >= self.items().len() ==> r is None,
            index < self.items().len() ==> (r matches Some(v) && cloned(self.items()[index as int], v)),
    {
        if index < self.list.len() {
            Some(self.list[index].clone())
        } else {
            None
        }
    }
}

/// The lock predicate of a shared list: no operation leaves its lock mark
/// set.
pub struct UnlockedList {}

impl<T> RwLockPredicate<SharedListInner<T>> for UnlockedList {
    open spec fn inv(self, v: SharedListInner<T>) -> bool {
        !v.is_locked()
    }
}

/// A list that several threads change; each operation is one step of
/// [`SharedListInner`] taken while the list is held.
pub struct SharedList<T> {
    list: Arc<RwLock<SharedListInner<T>, UnlockedList>>,
    has_lock: AtomicBool,
}

impl<T> SharedList<T> {
    /// The state that this handle changes.
    pub closed spec fn store(&self) -> RwLock<SharedListInner<T>, UnlockedList> {
        *self.list
    }

    pub fn new() -> (r: Self) {
        SharedList {
            list: Arc::new(RwLock::new(SharedListInner::new(), Ghost(UnlockedList {}))),
            has_lock: AtomicBool::new(false),
        }
    }

    /// Another handle on the same list, holding the lock when this one does.
    pub fn share(&self) -> (r: Self)
        ensures
            r.store() == self.store(),
    {
        let has_lock = AtomicBool::new(self.has_lock.load(std::sync::atomic::Ordering::SeqCst));
        SharedList { list: self.list.clone(), has_lock }
    }

    /// Waits while another handle holds the list locked; no operation leaves
    /// the lock mark set, so there is nothing to wait for.
    fn handle_locks(&self) {
        if self.has_lock.load(std::sync::atomic::Ordering::SeqCst) {
            return;
        }
        let handle = self.list.acquire_read();
        let locked = handle.borrow().locked;
        handle.release_read();
        assert(!locked);
    }

    pub fn push(&self, v: T) {
        self.handle_locks();
        let (mut inner, handle) = self.list.acquire_write();
        inner.push(v);
        handle.release_write(inner);
    }

    pub fn pop(&self) -> Option<T> {
        self.handle_locks();
        let (mut inner, handle) = self.list.acquire_write();
        let out = inner.pop();
        handle.release_write(inner);
        out
    }

    pub fn len(&self) -> usize {
        let handle = self.list.acquire_read();
        let n = handle.borrow().list.len();
        handle.release_read();
        n
    }

    pub fn is_empty(&self) -> bool {
        self.len() == 0
    }

    /// Whether the list changed since the last call.
    pub fn consume_mutation(&self) -> bool {
        self.handle_locks();
        let (mut inner, handle) = self.list.acquire_write();
        let out = inner.consume_mutation();
        handle.release_write(inner);
        out
    }

    /// Inserts `value` before item `index`; gives `value` back when there is
    /// no such item.
    pub fn insert(&self, index: usize, value: T) -> (r: Option<T>)
        ensures
            r matches Some(v) ==> v == value,
    {
        self.handle_locks();
        let (mut inner, handle) = self.list.acquire_write();
        let out = inner.insert(index, value);
        handle.release_write(inner);
        out
    }

    /// Puts `value` in place of item `index` and gives the old item; gives
    /// `value` back as an error when there is no such item.
    pub fn replace(&self, index: usize, value: T) -> (r: Result<T, T>)
        ensures
            r matches Err(v) ==> v == value,
    {
        self.handle_locks();
        let (mut inner, handle) = self.list.acquire_write();
        let out = inner.replace(index, value);
        handle.release_write(inner);
        out
    }

    /// Puts `value` in place of item `index`; gives `value` back when there
    /// is no such item.
    pub fn set(&self, index: usize, value: T) -> (r: Option<T>)
        ensures
            r matches Some(v) ==> v == value,
    {
        match self.replace(index, value) {
            Ok(_) => None,
            Err(v) => Some(v),
        }
    }

    pub fn remove(&self, index: usize) -> Option<T> {
        self.handle_locks();
        let (mut inner, handle) = self.list.acquire_write();
        let out = inner.remove(index);
        handle.release_write(inner);
        out
    }

    /// Marks this handle as holding the lock.
    pub fn lock(&self) {
        let (mut inner, handle) = self.list.acquire_write();
        self.has_lock.store(true, std::sync::atomic::Ordering::SeqCst);
        inner.clear_lock();
        handle.release_write(inner);
    }

    /// Whether this handle holds the lock.
    pub fn has_lock(&self) -> bool {
        self.has_lock.load(std::sync::atomic::Ordering::SeqCst)
    }

    /// Lets go of the lock, where this handle holds it.
    pub fn unlock(&self) {
        if !self.has_lock() {
            return;
        }
        let (mut inner, handle) = self.list.acquire_write();
        inner.clear_lock();
        handle.release_write(inner);
        self.has_lock.store(false, std::sync::atomic::Ordering::SeqCst);
    }
}

impl<T: Clone> SharedList<T> {
    /// A clone of item `index`, if there is one.
    pub fn get(&self, index: usize) -> Option<T> {
        let handle = self.list.acquire_read();
        let out = handle.borrow().get(index);
        handle.release_read();
        out
    }
}

/// A pipe's queue is first in, first out: a receive after a send hands out
/// the oldest value, and the value sent waits behind the others.
pub proof fn law_pipe_fifo<T>(queue: Seq<T>, v: T)
    ensures
        queue.len() == 0 ==> receive_step(send_step(queue, v)) == (Seq::<T>::empty(), Some(v)),
        queue.len() > 0 ==> receive_step(send_step(queue, v)) == (send_step(queue.drop_first(), v), Some(
            queue[0],
        )),
{
    if queue.len() == 0 {
        assert(send_step(queue, v).drop_first() =~= Seq::<T>::empty());
    } else {
        assert(send_step(queue, v).drop_first() =~= send_step(queue.drop_first(), v));
    }
}

/// A slot that was written hands the written value to the first read and
/// nothing to the next.
pub proof fn law_write_then_read<T>(v: T)
    ensures
        take_step(Some(v)) == (None::<T>, Some(v)),
        take_step(take_step(Some(v)).0).1 == None::<T>,
{
}

/// A shared handle on a value behind a [`SpinLock`]; copies of the handle
/// reach the same value.
pub struct Ptr<T> {
    ptr: Arc<SpinLock<T>>,
}

impl<T> Ptr<T> {
    /// The lock that the handle reaches.
    pub closed spec fn target(&self) -> SpinLock<T> {
        *self.ptr
    }

    /// A handle on a new lock that holds `value`.
    pub fn create(value: T) -> (r: Self) {
        Ptr { ptr: Arc::new(SpinLock::new(value)) }
    }

    /// Another handle on the same value.
    pub fn share(&self) -> (r: Self)
        ensures
            r.target() == self.target(),
    {
        Ptr { ptr: self.ptr.clone() }
    }

    /// Replaces the value with `value`.
    pub fn store(&self, value: T) {
        self.ptr.store(value);
    }

    /// Waits for the lock and holds the value.
    pub fn lock(&self) -> (r: Lock<'_, T>)
        ensures
            r.store() == self.target().cell_store(),
    {
        self.ptr.lock()
    }
}

impl<T: Clone> Ptr<T> {
    /// A clone of the value.
    pub fn load(&self) -> T {
        self.ptr.get()
    }
}

} // verus!
