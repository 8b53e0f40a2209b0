use crossbeam_skiplist::SkipMap;
use std::collections::HashMap;
use vstd::prelude::*;

use crate::key::{key_lt, MapKey};

verus! {

broadcast use vstd::std_specs::hash::group_hash_axioms;

#[verifier::external_type_specification]
#[verifier::external_body]
#[verifier::reject_recursive_types(K)]
#[verifier::reject_recursive_types(V)]
pub struct ExSkipMap<K, V>(SkipMap<K, V>);

/// The keys held by an ordered skip map of queue keys.
pub uninterp spec fn skip_keys(m: SkipMap<(u64, u64), ()>) -> Set<(u64, u64)>;

/// `k` is the lowest of `keys` in the tuple order.
pub open spec fn is_lowest(keys: Set<(u64, u64)>, k: (u64, u64)) -> bool {
    &&& keys.contains(k)
    &&& forall|j: (u64, u64)| #[trigger] keys.contains(j) && j != k ==> key_lt(k, j)
}

/// Relies on `SkipMap::new`: a new map holds no entry.
#[verifier::external_body]
fn skip_new() -> (m: SkipMap<(u64, u64), ()>)
    ensures
        skip_keys(m) == Set::<(u64, u64)>::empty(),
{
    SkipMap::new()
}

/// Relies on `SkipMap::insert`: the key is present afterwards, the others stay.
#[verifier::external_body]
fn skip_insert(m: &mut SkipMap<(u64, u64), ()>, k: (u64, u64))
    ensures
        skip_keys(*final(m)) == skip_keys(*old(m)).insert(k),
{
    m.insert(k, ());
}

/// Relies on `SkipMap::pop_front`: removes and returns the lowest key, which
/// for tuples is the lexicographic order of std; `None` when the map is empty.
#[verifier::external_body]
fn skip_pop_front(m: &mut SkipMap<(u64, u64), ()>) -> (r: Option<(u64, u64)>)
    ensures
        match r {
            Some(k) => is_lowest(skip_keys(*old(m)), k) && skip_keys(*final(m)) == skip_keys(
                *old(m),
            ).remove(k),
            None => skip_keys(*old(m)) == Set::<(u64, u64)>::empty() && skip_keys(*final(m))
                == skip_keys(*old(m)),
        },
{
    m.pop_front().map(|e| *e.key())
}

/// Error of a send when no receiver is left; the message comes back.
#[derive(PartialEq, Eq, Debug)]
pub struct SendError<T>(pub T);

/// Error of a non-blocking send.
#[derive(PartialEq, Eq, Debug)]
pub enum TrySendError<T> {
    Full(T),
    Disconnected(T),
}

/// Error of a non-blocking receive.
#[derive(PartialEq, Eq, Structural, Clone, Copy, Debug)]
pub enum TryRecvError {
    Empty,
    Disconnected,
}

/// Error of a blocking receive: no sender is left and nothing is queued.
#[derive(PartialEq, Eq, Structural, Clone, Copy, Debug)]
pub struct RecvError;

/// What a blocking receiver does next.
#[derive(PartialEq, Eq, Debug)]
pub enum RecvStep<T> {
    /// An item was taken.
    Ready(T),
    /// Nothing is queued and no sender is left.
    Closed,
    /// Nothing is queued yet: wait for a send or for the last sender to leave.
    Wait,
}

/// `s` is the sequence number of the item dequeued first from `pend`, a map
/// from sequence number to (priority, message).
pub open spec fn is_front<T>(pend: Map<u64, (u64, T)>, s: u64) -> bool {
    &&& pend.contains_key(s)
    &&& forall|t: u64|
        #[trigger] pend.contains_key(t) && t != s ==> key_lt((pend[s].0, s), (pend[t].0, t))
}

/// The sequence number of the front item of a non-empty pending map.
pub open spec fn front_of<T>(pend: Map<u64, (u64, T)>) -> u64 {
    choose|s: u64| is_front(pend, s)
}

/// Two fronts of one map are the same item.
pub proof fn lemma_front_unique<T>(pend: Map<u64, (u64, T)>, a: u64, b: u64)
    requires
        is_front(pend, a),
        is_front(pend, b),
    ensures
        a == b,
{
    if a != b {
        assert(key_lt((pend[a].0, a), (pend[b].0, b)));
        assert(key_lt((pend[b].0, b), (pend[a].0, a)));
    }
}

/// The shared state of a priority channel: the queued items ordered by
/// `(priority, sequence)`, the sequence generator, and the live sender and
/// receiver counts.
pub struct PriorityQueue<T> {
    queue: SkipMap<(u64, u64), ()>,
    slots: HashMap<u64, (u64, T)>,
    sequencer: u64,
    senders: usize,
    receivers: usize,
    disconnected: bool,
    sent: Ghost<Seq<(u64, T)>>,
    delivered: Ghost<Seq<u64>>,
}

impl<T> PriorityQueue<T> {
    /// The queued items: sequence number to (priority, message).
    pub closed spec fn pending(&self) -> Map<u64, (u64, T)> {
        self.slots@
    }

    /// The sequence number that the next accepted send gets.
    pub closed spec fn next_sequence(&self) -> u64 {
        self.sequencer
    }

    pub closed spec fn sender_count(&self) -> nat {
        self.senders as nat
    }

    pub closed spec fn receiver_count(&self) -> nat {
        self.receivers as nat
    }

    /// Set once the last sender has left; never cleared.
    pub closed spec fn is_disconnected(&self) -> bool {
        self.disconnected
    }

    /// Every accepted send, indexed by its sequence number.
    pub closed spec fn sent(&self) -> Seq<(u64, T)> {
        self.sent@
    }

    /// The sequence numbers of the items received, in order of receipt.
    pub closed spec fn delivered(&self) -> Seq<u64> {
        self.delivered@
    }

    /// The queued items, the sequence generator and the send history are
    /// those of `prev`.
    pub open spec fn unchanged_items(&self, prev: Self) -> bool {
        &&& self.pending() == prev.pending()
        &&& self.next_sequence() == prev.next_sequence()
        &&& self.sent() == prev.sent()
    }

    /// `msg` was queued with priority `pri` under the next sequence number of
    /// `prev`, and nothing else changed among the items.
    pub open spec fn queued_after(&self, prev: Self, pri: u64, msg: T) -> bool {
        &&& self.pending() == prev.pending().insert(prev.next_sequence(), (pri, msg))
        &&& self.next_sequence() == prev.next_sequence() + 1
        &&& self.sent() == prev.sent().push((pri, msg))
    }

    /// Everything but the sequence generator is as in `prev`.
    pub closed spec fn same_but_sequence(&self, prev: Self) -> bool {
        &&& self.queue == prev.queue
        &&& self.slots == prev.slots
        &&& self.senders == prev.senders
        &&& self.receivers == prev.receivers
        &&& self.disconnected == prev.disconnected
        &&& self.sent == prev.sent
        &&& self.delivered == prev.delivered
    }

    /// The queued items, the sequence generator and both histories are those
    /// of `prev`.
    pub open spec fn same_items(&self, prev: Self) -> bool {
        &&& self.unchanged_items(prev)
        &&& self.delivered() == prev.delivered()
    }

    /// `r` carries the front item of `prev`, which left the queue and was
    /// recorded as delivered.
    pub open spec fn took_front(&self, prev: Self, r: Result<T, TryRecvError>) -> bool {
        let f = front_of(prev.pending());
        &&& is_front(prev.pending(), f)
        &&& r == Ok::<T, TryRecvError>(prev.pending()[f].1)
        &&& self.pending() == prev.pending().remove(f)
        &&& self.delivered() == prev.delivered().push(f)
    }

    pub closed spec fn wf(&self) -> bool {
        &&& forall|k: (u64, u64)| #[trigger]
            skip_keys(self.queue).contains(k) <==> (self.slots@.contains_key(k.1)
                && self.slots@[k.1].0 == k.0)
        &&& self.sent@.len() == self.sequencer
        &&& forall|s: u64| #[trigger]
            self.slots@.contains_key(s) ==> s < self.sequencer && self.sent@[s as int]
                == self.slots@[s]
        &&& self.delivered@.no_duplicates()
        &&& forall|i: int|
            0 <= i < self.delivered@.len() ==> #[trigger] self.delivered@[i] < self.sequencer
        &&& forall|s: u64|
            s < self.sequencer ==> (#[trigger] self.slots@.contains_key(s)
                != self.delivered@.contains(s))
        &&& self.senders == 0 <==> self.disconnected
    }

    /// A channel with one sender, one receiver and nothing queued.
    pub fn new() -> (q: Self)
        ensures
            q.wf(),
            q.pending() == Map::<u64, (u64, T)>::empty(),
            q.next_sequence() == 0,
            q.sender_count() == 1,
            q.receiver_count() == 1,
            !q.is_disconnected(),
            q.sent() == Seq::<(u64, T)>::empty(),
            q.delivered() == Seq::<u64>::empty(),
    {
        let q = PriorityQueue {
            queue: skip_new(),
            slots: HashMap::new(),
            sequencer: 0,
            senders: 1,
            receivers: 1,
            disconnected: false,
            sent: Ghost(Seq::empty()),
            delivered: Ghost(Seq::empty()),
        };
        assert(q.slots@ =~= Map::empty());
        q
    }

    /// Allocates the key of the next item: the given priority and the next
    /// sequence number.
    pub fn get_map_key(&mut self, pri: u64) -> (k: MapKey)
        requires
            old(self).next_sequence() < u64::MAX,
        ensures
            k@ == (pri, old(self).next_sequence()),
            final(self).next_sequence() == old(self).next_sequence() + 1,
            final(self).same_but_sequence(*old(self)),
    {
        let k = MapKey { priority: pri, sequence: self.sequencer };
        self.sequencer = self.sequencer + 1;
        k
    }

    /// The number of queued items.
    pub fn len(&self) -> (r: usize)
        requires
            self.wf(),
        ensures
            r == self.pending().len(),
    {
        self.slots.len()
    }

    /// Whether the sequence numbers are used up, so that no send can be taken.
    pub fn sequence_exhausted(&self) -> (r: bool)
        ensures
            r == (self.next_sequence() == u64::MAX),
    {
        self.sequencer == u64::MAX
    }

    /// The number of live sender handles.
    pub fn sender_handles(&self) -> (r: usize)
        ensures
            r == self.sender_count(),
    {
        self.senders
    }

    /// The number of live receiver handles.
    pub fn receiver_handles(&self) -> (r: usize)
        ensures
            r == self.receiver_count(),
    {
        self.receivers
    }

    pub fn is_connected(&self) -> (r: bool)
        requires
            self.wf(),
        ensures
            r == (self.sender_count() > 0),
    {
        !self.disconnected
    }

    /// Queues `msg` with priority `pri`, unless no receiver is left, in which
    /// case the message comes back in the error.
    pub fn send(&mut self, msg: T, pri: u64) -> (r: Result<(), SendError<T>>)
        requires
            old(self).wf(),
            old(self).receiver_count() > 0 ==> old(self).next_sequence() < u64::MAX,
        ensures
            final(self).wf(),
            final(self).sender_count() == old(self).sender_count(),
            final(self).receiver_count() == old(self).receiver_count(),
            final(self).is_disconnected() == old(self).is_disconnected(),
            final(self).delivered() == old(self).delivered(),
            old(self).receiver_count() == 0 ==> r == Err::<(), SendError<T>>(SendError(msg)),
            old(self).receiver_count() == 0 ==> final(self).unchanged_items(*old(self)),
            old(self).receiver_count() > 0 ==> r is Ok,
            old(self).receiver_count() > 0 ==> final(self).queued_after(*old(self), pri, msg),
    {
        if self.receivers == 0 {
            return Err(SendError(msg));
        }
        let ghost old_q = *self;
        let k = self.get_map_key(pri);
        skip_insert(&mut self.queue, (k.priority, k.sequence));
        self.slots.insert(k.sequence, (pri, msg));
        self.sent = Ghost(self.sent@.push((pri, msg)));
        proof {
            assert(!old_q.slots@.contains_key(k.sequence));
            assert forall|j: (u64, u64)| #[trigger]
                skip_keys(self.queue).contains(j) <==> (self.slots@.contains_key(j.1)
                    && self.slots@[j.1].0 == j.0) by {
                if j.1 != k.sequence {
                    assert(skip_keys(old_q.queue).contains(j) <==> (old_q.slots@.contains_key(
                        j.1,
                    ) && old_q.slots@[j.1].0 == j.0));
                } else if j != (k.priority, k.sequence) {
                    if skip_keys(old_q.queue).contains(j) {
                        assert(old_q.slots@.contains_key(j.1));
                    }
                }
            }
            assert forall|s: u64| s < self.sequencer implies (#[trigger] self.slots@.contains_key(
                s,
            ) != self.delivered@.contains(s)) by {
                if s != k.sequence {
                    assert(old_q.slots@.contains_key(s) != old_q.delivered@.contains(s));
                } else {
                    if self.delivered@.contains(s) {
                        let i = choose|i: int|
                            0 <= i < self.delivered@.len() && self.delivered@[i] == s;
                        assert(self.delivered@[i] < old_q.sequencer);
                    }
                }
            }
        }
        Ok(())
    }

    /// As `send`, with the error in the non-blocking form.
    pub fn try_send(&mut self, msg: T, pri: u64) -> (r: Result<(), TrySendError<T>>)
        requires
            old(self).wf(),
            old(self).receiver_count() > 0 ==> old(self).next_sequence() < u64::MAX,
        ensures
            final(self).wf(),
            final(self).sender_count() == old(self).sender_count(),
            final(self).receiver_count() == old(self).receiver_count(),
            final(self).is_disconnected() == old(self).is_disconnected(),
            final(self).delivered() == old(self).delivered(),
            old(self).receiver_count() == 0 ==> r == Err::<(), TrySendError<T>>(
                TrySendError::Disconnected(msg)),
            old(self).receiver_count() == 0 ==> final(self).unchanged_items(*old(self)),
            old(self).receiver_count() > 0 ==> r is Ok,
            old(self).receiver_count() > 0 ==> final(self).queued_after(*old(self), pri, msg),
    {
        match self.send(msg, pri) {
            Ok(()) => Ok(()),
            Err(SendError(m)) => Err(TrySendError::Disconnected(m)),
        }
    }

    /// Removes and returns the front item: the lowest priority value, and
    /// among equal priorities the earliest sent. With nothing queued, reports
    /// `Disconnected` when no sender is left and `Empty` otherwise.
    pub fn try_recv(&mut self) -> (r: Result<T, TryRecvError>)
        requires
            old(self).wf(),
        ensures
            final(self).wf(),
            final(self).sender_count() == old(self).sender_count(),
            final(self).receiver_count() == old(self).receiver_count(),
            final(self).is_disconnected() == old(self).is_disconnected(),
            final(self).next_sequence() == old(self).next_sequence(),
            final(self).sent() == old(self).sent(),
            old(self).pending() == Map::<u64, (u64, T)>::empty() ==> final(self).pending()
                == old(self).pending() && final(self).delivered() == old(self).delivered(),
            old(self).pending() == Map::<u64, (u64, T)>::empty() && old(self).sender_count()
                == 0 ==> r == Err::<T, TryRecvError>(TryRecvError::Disconnected),
            old(self).pending() == Map::<u64, (u64, T)>::empty() && old(self).sender_count()
                > 0 ==> r == Err::<T, TryRecvError>(TryRecvError::Empty),
            old(self).pending() != Map::<u64, (u64, T)>::empty() ==> final(self).took_front(
                *old(self),
                r,
            ),
    {
        let ghost old_q = *self;
        match skip_pop_front(&mut self.queue) {
            Some(k) => {
                proof {
                    assert(skip_keys(old_q.queue).contains(k));
                    assert forall|t: u64| #[trigger]
                        old_q.slots@.contains_key(t) && t != k.1 implies key_lt(
                        (old_q.slots@[k.1].0, k.1),
                        (old_q.slots@[t].0, t),
                    ) by {
                        assert(skip_keys(old_q.queue).contains((old_q.slots@[t].0, t)));
                    }
                    assert(is_front(old_q.slots@, k.1));
                    lemma_front_unique(old_q.slots@, k.1, front_of(old_q.slots@));
                }
                match self.slots.remove(&k.1) {
                    Some((_p, v)) => {
                        self.delivered = Ghost(self.delivered@.push(k.1));
                        proof {
                            assert forall|j: (u64, u64)| #[trigger]
                                skip_keys(self.queue).contains(j) <==> (
                                self.slots@.contains_key(j.1) && self.slots@[j.1].0 == j.0) by {
                                assert(skip_keys(old_q.queue).contains(j) <==> (
                                old_q.slots@.contains_key(j.1) && old_q.slots@[j.1].0 == j.0));
                            }
                            assert forall|i: int|
                                0 <= i < self.delivered@.len() implies #[trigger]
                                self.delivered@[i] < self.sequencer by {
                                if i < old_q.delivered@.len() {
                                    assert(old_q.delivered@[i] < old_q.sequencer);
                                }
                            }
                            assert forall|s: u64| s < self.sequencer implies (
                            #[trigger] self.slots@.contains_key(s) != self.delivered@.contains(
                                s,
                            )) by {
                                assert(old_q.slots@.contains_key(s) != old_q.delivered@.contains(
                                    s,
                                ));
                                if s == k.1 {
                                    assert(self.delivered@[old_q.delivered@.len() as int] == k.1);
                                    assert(self.delivered@.contains(s));
                                } else if self.delivered@.contains(s) {
                                    let i = choose|i: int|
                                        0 <= i < self.delivered@.len() && self.delivered@[i]
                                            == s;
                                    assert(old_q.delivered@[i] == s);
                                } else if old_q.delivered@.contains(s) {
                                    let i = choose|i: int|
                                        0 <= i < old_q.delivered@.len() && old_q.delivered@[i]
                                            == s;
                                    assert(self.delivered@[i] == s);
                                }
                            }
                            assert(!old_q.delivered@.contains(k.1));
                            assert forall|i: int, j: int|
                                0 <= i < self.delivered@.len() && 0 <= j
                                    < self.delivered@.len() && i != j implies
                                self.delivered@[i] != self.delivered@[j] by {
                                if i < old_q.delivered@.len() && j < old_q.delivered@.len() {
                                } else if i < old_q.delivered@.len() {
                                    assert(old_q.delivered@[i] != k.1);
                                } else if j < old_q.delivered@.len() {
                                    assert(old_q.delivered@[j] != k.1);
                                }
                            }
                        }
                        Ok(v)
                    },
                    None => {
                        proof {
                            assert(false);
                        }
                        Err(TryRecvError::Empty)
                    },
                }
            },
            None => {
                proof {
                    assert forall|t: u64| !#[trigger] old_q.slots@.contains_key(t) by {
                        if old_q.slots@.contains_key(t) {
                            assert(skip_keys(old_q.queue).contains((old_q.slots@[t].0, t)));
                        }
                    }
                    assert(old_q.slots@ =~= Map::empty());
                }
                if self.senders == 0 {
                    Err(TryRecvError::Disconnected)
                } else {
                    Err(TryRecvError::Empty)
                }
            },
        }
    }

    /// One step of a blocking receive: take the front item, report that the
    /// channel is closed, or ask the caller to wait.
    pub fn recv_step(&mut self) -> (r: RecvStep<T>)
        requires
            old(self).wf(),
        ensures
            final(self).wf(),
            final(self).sender_count() == old(self).sender_count(),
            final(self).receiver_count() == old(self).receiver_count(),
            final(self).is_disconnected() == old(self).is_disconnected(),
            final(self).next_sequence() == old(self).next_sequence(),
            final(self).sent() == old(self).sent(),
            old(self).pending() == Map::<u64, (u64, T)>::empty() ==> final(self).pending()
                == old(self).pending() && final(self).delivered() == old(self).delivered(),
            old(self).pending() == Map::<u64, (u64, T)>::empty() && old(self).sender_count()
                == 0 ==> r == RecvStep::<T>::Closed,
            old(self).pending() == Map::<u64, (u64, T)>::empty() && old(self).sender_count()
                > 0 ==> r == RecvStep::<T>::Wait,
            old(self).pending() != Map::<u64, (u64, T)>::empty() ==> exists|v: T|
                r == RecvStep::Ready(v) && #[trigger] final(self).took_front(
                    *old(self),
                    Ok::<T, TryRecvError>(v),
                ),
    {
        match self.try_recv() {
            Ok(v) => RecvStep::Ready(v),
            Err(TryRecvError::Disconnected) => RecvStep::Closed,
            Err(TryRecvError::Empty) => RecvStep::Wait,
        }
    }

    /// Registers one more sender handle.
    pub fn add_sender(&mut self)
        requires
            old(self).wf(),
            old(self).sender_count() > 0,
            old(self).sender_count() < usize::MAX,
        ensures
            final(self).wf(),
            final(self).sender_count() == old(self).sender_count() + 1,
            final(self).same_items(*old(self)),
            final(self).receiver_count() == old(self).receiver_count(),
            final(self).is_disconnected() == old(self).is_disconnected(),
    {
        self.senders = self.senders + 1;
    }

    /// Drops one sender handle. When it was the last, the channel becomes
    /// disconnected and the result asks the caller to wake every waiting
    /// receiver.
    pub fn drop_sender(&mut self) -> (wake_all: bool)
        requires
            old(self).wf(),
            old(self).sender_count() > 0,
        ensures
            final(self).wf(),
            final(self).sender_count() == old(self).sender_count() - 1,
            wake_all == (old(self).sender_count() == 1),
            final(self).is_disconnected() == wake_all,
            final(self).same_items(*old(self)),
            final(self).receiver_count() == old(self).receiver_count(),
    {
        let before = self.senders;
        self.senders = self.senders - 1;
        if before <= 1 {
            self.disconnected = true;
            true
        } else {
            false
        }
    }

    /// Registers one more receiver handle.
    pub fn add_receiver(&mut self)
        requires
            old(self).wf(),
            old(self).receiver_count() > 0,
            old(self).receiver_count() < usize::MAX,
        ensures
            final(self).wf(),
            final(self).receiver_count() == old(self).receiver_count() + 1,
            final(self).same_items(*old(self)),
            final(self).sender_count() == old(self).sender_count(),
            final(self).is_disconnected() == old(self).is_disconnected(),
    {
        self.receivers = self.receivers + 1;
    }

    /// Drops one receiver handle; queued items stay and nobody is woken.
    pub fn drop_receiver(&mut self)
        requires
            old(self).wf(),
            old(self).receiver_count() > 0,
        ensures
            final(self).wf(),
            final(self).receiver_count() == old(self).receiver_count() - 1,
            final(self).same_items(*old(self)),
            final(self).sender_count() == old(self).sender_count(),
            final(self).is_disconnected() == old(self).is_disconnected(),
    {
        self.receivers = self.receivers - 1;
    }
}

/// Receive order: the item taken next precedes every other queued item,
/// first by a smaller priority value and, among equal priorities, by an
/// earlier sequence number, that is an earlier send.
pub proof fn lemma_receive_order<T>(q: PriorityQueue<T>, t: u64)
    requires
        q.wf(),
        q.pending().contains_key(t),
        t != front_of(q.pending()),
    ensures
        is_front(q.pending(), front_of(q.pending())),
        q.pending()[front_of(q.pending())].0 < q.pending()[t].0 || (q.pending()[front_of(
            q.pending(),
        )].0 == q.pending()[t].0 && front_of(q.pending()) < t),
{
    lemma_front_exists(q);
}

/// Receives come out sorted: after the front item leaves, the next front item
/// follows it in `(priority, sequence)` order, so a run of receives yields the
/// queued items by ascending priority and, within a priority, in send order.
pub proof fn lemma_consecutive_receives_sorted<T>(q: PriorityQueue<T>)
    requires
        q.wf(),
        q.pending().remove(front_of(q.pending())) != Map::<u64, (u64, T)>::empty(),
    ensures
        ({
            let p = q.pending();
            let f1 = front_of(p);
            let f2 = front_of(p.remove(f1));
            &&& is_front(p, f1)
            &&& is_front(p.remove(f1), f2)
            &&& key_lt((p[f1].0, f1), (p[f2].0, f2))
        }),
{
    let p = q.pending();
    let rest = p.remove(front_of(p));
    assert(exists|s: u64| rest.contains_key(s)) by {
        if forall|s: u64| !rest.contains_key(s) {
            assert(rest =~= Map::empty());
        }
    }
    assert(p != Map::<u64, (u64, T)>::empty()) by {
        let s = choose|s: u64| rest.contains_key(s);
        assert(p.contains_key(s));
    }
    lemma_front_exists(q);
    lemma_min_key_exists(rest, q.next_sequence() as int);
    let f2 = front_of(rest);
    assert(p.contains_key(f2));
}

/// A queue that holds an item has a front item.
pub proof fn lemma_front_exists<T>(q: PriorityQueue<T>)
    requires
        q.wf(),
        q.pending() != Map::<u64, (u64, T)>::empty(),
    ensures
        is_front(q.pending(), front_of(q.pending())),
{
    let pend = q.pending();
    assert(exists|s: u64| pend.contains_key(s)) by {
        if forall|s: u64| !pend.contains_key(s) {
            assert(pend =~= Map::empty());
        }
    }
    // every queued sequence number is below the generator, so a front exists
    // among the finitely many candidates
    lemma_min_key_exists(pend, (q.next_sequence() as int));
}

/// Among the queued items whose sequence numbers lie below `bound`, a lowest
/// one exists as soon as any does.
proof fn lemma_min_key_exists<T>(pend: Map<u64, (u64, T)>, bound: int)
    requires
        0 <= bound <= u64::MAX + 1,
        forall|s: u64| #[trigger] pend.contains_key(s) ==> s < bound,
        exists|s: u64| pend.contains_key(s),
    ensures
        is_front(pend, front_of(pend)),
    decreases bound,
{
    let w = choose|s: u64| pend.contains_key(s);
    assert(w < bound);
    let last = (bound - 1) as u64;
    assert(last == bound - 1);
    if exists|s: u64| pend.contains_key(s) && s < bound - 1 {
        let s0 = choose|s: u64| pend.contains_key(s) && s < bound - 1;
        let rest = pend.remove(last);
        assert(rest.contains_key(s0));
        lemma_min_key_exists(rest, bound - 1);
        let f = front_of(rest);
        if pend.contains_key(last) && key_lt((pend[last].0, last), (pend[f].0, f)) {
            assert forall|t: u64| #[trigger]
                pend.contains_key(t) && t != last implies key_lt(
                (pend[last].0, last),
                (pend[t].0, t),
            ) by {
                if t != f {
                    assert(rest.contains_key(t));
                }
            }
            assert(is_front(pend, last));
        } else {
            assert forall|t: u64| #[trigger]
                pend.contains_key(t) && t != f implies key_lt((pend[f].0, f), (pend[t].0, t)) by {
                if t != last {
                    assert(rest.contains_key(t));
                }
            }
            assert(is_front(pend, f));
        }
    } else {
        assert(w == last);
        assert(is_front(pend, last));
    }
}

/// Sends never reuse a sequence number: every queued item was sent before the
/// next send, whose sequence number is larger.
pub proof fn lemma_pending_before_next<T>(q: PriorityQueue<T>, s: u64)
    requires
        q.wf(),
        q.pending().contains_key(s),
    ensures
        s < q.next_sequence(),
        q.sent()[s as int] == q.pending()[s],
{
}

/// Conservation: every accepted send is either still queued or was received,
/// never both, and no item was received twice; queued items are the ones sent.
/// Once the queue is drained, every sent item has been received exactly once.
pub proof fn lemma_conservation<T>(q: PriorityQueue<T>)
    requires
        q.wf(),
    ensures
        q.sent().len() == q.next_sequence(),
        q.delivered().no_duplicates(),
        forall|s: u64|
            s < q.next_sequence() ==> (#[trigger] q.pending().contains_key(s)
                != q.delivered().contains(s)),
        forall|i: int|
            0 <= i < q.delivered().len() ==> #[trigger] q.delivered()[i] < q.next_sequence(),
        q.pending() == Map::<u64, (u64, T)>::empty() ==> forall|s: u64|
            s < q.next_sequence() ==> #[trigger] q.delivered().contains(s),
{
    if q.pending() == Map::<u64, (u64, T)>::empty() {
        assert forall|s: u64| s < q.next_sequence() implies #[trigger] q.delivered().contains(
            s,
        ) by {
            assert(!q.pending().contains_key(s));
        }
    }
}

} // verus!
