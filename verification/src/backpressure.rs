//! Back-pressure for watch-event delivery: each session gets a bounded
//! queue; when it is full the new event is dropped (drop-newest) and the
//! session's drop counter goes up.
use vstd::prelude::*;

use std::collections::HashMap;

use crate::idmap::IdMap;
use crate::strmap::{entries_insert, entries_remove, has_key, keys_unique, lookup, lemma_key_pos, lemma_lookup_insert, lemma_lookup_insert_other};
use crate::watch::{WatchEvent, WatchEventView};

verus! {

broadcast use vstd::std_specs::hash::group_hash_axioms;

/// The sending half of a bounded `tokio` channel.
#[verifier::external_type_specification]
#[verifier::external_body]
#[verifier::reject_recursive_types(T)]
pub struct ExMpscSender<T>(tokio::sync::mpsc::Sender<T>);

/// The receiving half of a bounded `tokio` channel.
#[verifier::external_type_specification]
#[verifier::external_body]
#[verifier::reject_recursive_types(T)]
pub struct ExMpscReceiver<T>(tokio::sync::mpsc::Receiver<T>);

/// The largest queue capacity `tokio` accepts.
pub open spec fn max_queue_capacity() -> usize {
    usize::MAX >> 3
}

/// What offering an event to a queue came to.
#[derive(Debug, Clone, Copy, PartialEq, Eq, Structural)]
pub enum SendOutcome {
    /// The event was queued.
    Sent,
    /// The queue was full; the event was dropped.
    Full,
    /// The receiving side is gone; the event was dropped.
    Closed,
}

/// The events a bounded queue has accepted from this sending half, oldest
/// first (those already received included).
pub uninterp spec fn mpsc_accepted(tx: tokio::sync::mpsc::Sender<WatchEvent>) -> Seq<WatchEventView>;

/// Opens a bounded channel for watch events (`tokio::sync::mpsc::channel`)
/// with room for `capacity` events; nothing has been sent on it yet.
/// `tokio` panics on a capacity of zero or above `usize::MAX >> 3`.
#[verifier::external_body]
fn open_delivery_channel(capacity: usize) -> (r: (tokio::sync::mpsc::Sender<WatchEvent>, tokio::sync::mpsc::Receiver<WatchEvent>))
    requires
        0 < capacity <= max_queue_capacity(),
    ensures
        mpsc_accepted(r.0) == Seq::<WatchEventView>::empty(),
{
    tokio::sync::mpsc::channel(capacity)
}

/// Offers an event to a queue without waiting (`Sender::try_send`): a
/// queued event joins the accepted ones; a full or closed queue leaves
/// them as they are. Which outcome comes back depends on the queue's fill
/// and on whether its receiver still exists, which is not known here.
#[verifier::external_body]
fn offer_event(tx: &mut tokio::sync::mpsc::Sender<WatchEvent>, event: WatchEvent) -> (r: SendOutcome)
    ensures
        r is Sent ==> mpsc_accepted(*final(tx)) == mpsc_accepted(*old(tx)).push(event@),
        !(r is Sent) ==> mpsc_accepted(*final(tx)) == mpsc_accepted(*old(tx)),
{
    match tx.try_send(event) {
        Ok(()) => SendOutcome::Sent,
        Err(tokio::sync::mpsc::error::TrySendError::Full(_)) => SendOutcome::Full,
        Err(tokio::sync::mpsc::error::TrySendError::Closed(_)) => SendOutcome::Closed,
    }
}

/// Statistics of one session's queue.
#[derive(Debug, Clone)]
pub struct QueueStats {
    pub capacity: usize,
    /// Not observable through the channel; always 0.
    pub current_depth: usize,
    pub dropped_total: u64,
}

/// The delivery manager as a value.
pub struct DeliveryView {
    /// The sessions with a queue, in registration order.
    pub sessions: Seq<u64>,
    /// Each session's count of dropped events.
    pub dropped: Seq<(u64, u64)>,
    pub default_capacity: usize,
    /// Each session's queue: the events it has accepted, oldest first.
    pub queued: Seq<(u64, Seq<WatchEventView>)>,
    /// Every event offered to a queue, with its session, oldest first.
    pub offered: Seq<(u64, WatchEventView)>,
}

/// A drop counter after one more drop; it wraps around like an atomic
/// addition.
pub open spec fn bumped(c: u64) -> u64 {
    if c == u64::MAX { 0 } else { (c + 1) as u64 }
}

/// The manager with other drop counters.
pub open spec fn with_dropped(v: DeliveryView, dropped: Seq<(u64, u64)>) -> DeliveryView {
    DeliveryView { sessions: v.sessions, dropped, default_capacity: v.default_capacity, queued: v.queued, offered: v.offered }
}

/// The manager after event `e` was offered to the queue of `sid` and the
/// offer came to `outcome`: the offer is recorded, and a queued event
/// joins that queue.
pub open spec fn offered_to(v: DeliveryView, sid: u64, outcome: SendOutcome, e: WatchEventView) -> DeliveryView {
    DeliveryView {
        sessions: v.sessions,
        dropped: v.dropped,
        default_capacity: v.default_capacity,
        queued: if outcome is Sent { entries_insert(v.queued, sid, lookup(v.queued, sid)->0.push(e)) } else { v.queued },
        offered: v.offered.push((sid, e)),
    }
}

/// Recording the outcome of offering an event to session `sid`: the
/// manager afterwards and whether the event was delivered. A full queue
/// counts a drop.
pub open spec fn record_result(v: DeliveryView, sid: u64, outcome: SendOutcome) -> (DeliveryView, bool) {
    match outcome {
        SendOutcome::Sent => (v, true),
        SendOutcome::Full => match lookup(v.dropped, sid) {
            Some(c) => (with_dropped(v, entries_insert(v.dropped, sid, bumped(c))), false),
            None => (v, false),
        },
        SendOutcome::Closed => (v, false),
    }
}

proof fn lemma_queued_keys(s: Seq<(u64, tokio::sync::mpsc::Sender<WatchEvent>)>)
    requires
        keys_unique(s),
    ensures
        keys_unique(s.map_values(|e: (u64, tokio::sync::mpsc::Sender<WatchEvent>)| (e.0, mpsc_accepted(e.1)))),
{
    let q = s.map_values(|e: (u64, tokio::sync::mpsc::Sender<WatchEvent>)| (e.0, mpsc_accepted(e.1)));
    assert forall|a: int, b: int| 0 <= a < q.len() && 0 <= b < q.len() && a != b implies (#[trigger] q[a]).0 != (#[trigger] q[b]).0 by {
        assert(q[a].0 == s[a].0 && q[b].0 == s[b].0);
    }
}

/// The offers a batch makes: one per listed session that has a queue, in
/// the order of the list.
pub open spec fn batch_offers(ids: Seq<u64>, sessions: Seq<u64>, e: WatchEventView) -> Seq<(u64, WatchEventView)>
    decreases ids.len(),
{
    if ids.len() == 0 {
        Seq::empty()
    } else if sessions.contains(ids.last()) {
        batch_offers(ids.drop_last(), sessions, e).push((ids.last(), e))
    } else {
        batch_offers(ids.drop_last(), sessions, e)
    }
}

/// The sum of all drop counters.
pub open spec fn dropped_sum(d: Seq<(u64, u64)>) -> nat
    decreases d.len(),
{
    if d.len() == 0 {
        0
    } else {
        dropped_sum(d.drop_last()) + d.last().1 as nat
    }
}

proof fn lemma_dropped_sum_prefix(d: Seq<(u64, u64)>, i: int)
    requires
        0 <= i <= d.len(),
    ensures
        dropped_sum(d.take(i)) <= dropped_sum(d),
    decreases d.len() - i,
{
    if i < d.len() {
        lemma_dropped_sum_prefix(d, i + 1);
        assert(d.take(i + 1).drop_last() =~= d.take(i));
    } else {
        assert(d.take(i) =~= d);
    }
}

/// Per-session bounded queues for watch events, with the record of the
/// events offered to them.
pub struct DeliveryManager {
    senders: IdMap<tokio::sync::mpsc::Sender<WatchEvent>>,
    dropped: IdMap<u64>,
    default_capacity: usize,
    offered: Ghost<Seq<(u64, WatchEventView)>>,
}

impl View for DeliveryManager {
    type V = DeliveryView;

    closed spec fn view(&self) -> DeliveryView {
        DeliveryView {
            sessions: self.senders@.map_values(|e: (u64, tokio::sync::mpsc::Sender<WatchEvent>)| e.0),
            dropped: self.dropped@,
            default_capacity: self.default_capacity,
            queued: self.senders@.map_values(|e: (u64, tokio::sync::mpsc::Sender<WatchEvent>)| (e.0, mpsc_accepted(e.1))),
            offered: self.offered@,
        }
    }
}

impl DeliveryManager {
    proof fn lemma_sessions(&self, sid: u64)
        ensures
            has_key(self.senders@, sid) <==> self@.sessions.contains(sid),
            self@.sessions.len() == self.senders@.len(),
    {
        if has_key(self.senders@, sid) {
            let i = choose|i: int| 0 <= i < self.senders@.len() && (#[trigger] self.senders@[i]).0 == sid;
            assert(self@.sessions[i] == sid);
        }
        if self@.sessions.contains(sid) {
            let i = choose|i: int| 0 <= i < self@.sessions.len() && self@.sessions[i] == sid;
            assert(self.senders@[i].0 == sid);
        }
    }

    /// A manager without sessions whose queues hold `default_capacity`
    /// events.
    pub fn new(default_capacity: usize) -> (r: DeliveryManager)
        ensures
            r@.sessions == Seq::<u64>::empty(),
            r@.dropped == Seq::<(u64, u64)>::empty(),
            r@.default_capacity == default_capacity,
            r@.offered == Seq::<(u64, WatchEventView)>::empty(),
    {
        let r = DeliveryManager { senders: IdMap::new(), dropped: IdMap::new(), default_capacity, offered: Ghost(Seq::empty()) };
        assert(r@.sessions =~= Seq::<u64>::empty());
        assert(r@.queued =~= Seq::<(u64, Seq<WatchEventView>)>::empty());
        r
    }

    /// Opens a queue for `session_id` and gives its receiving side; `None`
    /// when the session already has one.
    pub fn register_session(&mut self, session_id: u64) -> (r: Option<tokio::sync::mpsc::Receiver<WatchEvent>>)
        requires
            !old(self)@.sessions.contains(session_id) ==> 0 < old(self)@.default_capacity <= max_queue_capacity(),
        ensures
            old(self)@.sessions.contains(session_id) ==> r is None && final(self)@ == old(self)@,
            !old(self)@.sessions.contains(session_id) ==> {
                &&& r is Some
                &&& final(self)@.sessions == old(self)@.sessions.push(session_id)
                &&& final(self)@.dropped == entries_insert(old(self)@.dropped, session_id, 0)
                &&& final(self)@.default_capacity == old(self)@.default_capacity
                &&& final(self)@.queued == old(self)@.queued.push((session_id, Seq::<WatchEventView>::empty()))
                &&& final(self)@.offered == old(self)@.offered
            },
    {
        proof {
            use_type_invariant(&self.senders);
            self.lemma_sessions(session_id);
            lemma_key_pos(self.senders@, session_id);
        }
        if self.senders.contains_key(session_id) {
            return None;
        }
        let (tx, rx) = open_delivery_channel(self.default_capacity);
        self.senders.insert(session_id, tx);
        self.dropped.insert(session_id, 0);
        assert(self@.sessions =~= old(self)@.sessions.push(session_id));
        assert(self@.queued =~= old(self)@.queued.push((session_id, Seq::<WatchEventView>::empty())));
        Some(rx)
    }

    /// Closes the queue of `session_id`.
    pub fn unregister_session(&mut self, session_id: u64)
        ensures
            !final(self)@.sessions.contains(session_id),
            final(self)@.dropped == entries_remove(old(self)@.dropped, session_id),
            forall|s: u64| s != session_id ==> (final(self)@.sessions.contains(s) <==> old(self)@.sessions.contains(s)),
            final(self)@.default_capacity == old(self)@.default_capacity,
            final(self)@.offered == old(self)@.offered,
    {
        proof {
            self.lemma_sessions(session_id);
            use_type_invariant(&self.senders);
        }
        let ghost before = *self;
        let _ = self.senders.remove(session_id);
        let _ = self.dropped.remove(session_id);
        proof {
            crate::strmap::lemma_remove_unique(before.senders@, session_id);
            self.lemma_sessions(session_id);
            assert forall|s: u64| s != session_id implies (self@.sessions.contains(s) <==> old(self)@.sessions.contains(s)) by {
                self.lemma_sessions(s);
                before.lemma_sessions(s);
                assert(has_key(self.senders@, s) == (lookup(self.senders@, s) is Some)) by {
                    lemma_key_pos(self.senders@, s);
                }
                assert(has_key(before.senders@, s) == (lookup(before.senders@, s) is Some)) by {
                    lemma_key_pos(before.senders@, s);
                }
            }
        }
    }

    /// Counts the outcome of offering an event to `session_id` (see
    /// `record_result`) and tells whether the event was delivered.
    pub fn record_outcome(&mut self, session_id: u64, outcome: SendOutcome) -> (r: bool)
        ensures
            (final(self)@, r) == record_result(old(self)@, session_id, outcome),
    {
        match outcome {
            SendOutcome::Sent => true,
            SendOutcome::Full => {
                match self.dropped.find(session_id) {
                    Some(i) => {
                        proof {
                            use_type_invariant(&self.dropped);
                            lemma_key_pos(self.dropped@, session_id);
                        }
                        let c = *self.dropped.value_at(i);
                        self.dropped.set_value_at(i, c.wrapping_add(1));
                        assert(self.dropped@ =~= entries_insert(old(self).dropped@, session_id, bumped(c)));
                        assert(self@.sessions == old(self)@.sessions);
                    },
                    None => {},
                }
                false
            },
            SendOutcome::Closed => false,
        }
    }

    /// Offers an event to the queue of `session_id`, dropping it when the
    /// queue is full (which counts a drop) or closed, or when the session
    /// has no queue. Tells whether the event was queued; a queued event
    /// joins that session's queue.
    pub fn deliver(&mut self, session_id: u64, event: WatchEvent) -> (r: bool)
        ensures
            !old(self)@.sessions.contains(session_id) ==> !r && final(self)@ == old(self)@,
            old(self)@.sessions.contains(session_id) ==> final(self)@.offered == old(self)@.offered.push((session_id, event@)),
            old(self)@.sessions.contains(session_id) ==> exists|o: SendOutcome|
                (final(self)@, r) == #[trigger] record_result(offered_to(old(self)@, session_id, o, event@), session_id, o),
    {
        proof {
            self.lemma_sessions(session_id);
            use_type_invariant(&self.senders);
            lemma_key_pos(self.senders@, session_id);
        }
        let i = match self.senders.find(session_id) {
            Some(i) => i,
            None => return false,
        };
        let ghost v0 = self@;
        let ghost s0 = self.senders@;
        let ghost ev = event@;
        proof {
            self.offered@ = self.offered@.push((session_id, ev));
        }
        let (k, mut tx) = self.senders.take_at(i);
        let outcome = offer_event(&mut tx, event);
        self.senders.put_at(i, k, tx);
        proof {
            let s1 = self.senders@;
            assert(s1 =~= s0.update(i as int, (k, tx)));
            assert(self@.sessions =~= v0.sessions);
            let q0 = v0.queued;
            assert(q0[i as int].0 == session_id);
            lemma_queued_keys(s0);
            lemma_key_pos(q0, session_id);
            if outcome is Sent {
                assert(self@.queued =~= offered_to(v0, session_id, outcome, ev).queued);
            } else {
                assert(self@.queued =~= v0.queued);
            }
            assert(self@.offered == offered_to(v0, session_id, outcome, ev).offered);
            assert(self@ == offered_to(v0, session_id, outcome, ev));
        }
        self.record_outcome(session_id, outcome)
    }

    /// Offers an event to each listed session; gives, per session, whether
    /// the event was queued (the last offer counts for a repeated id).
    pub fn deliver_batch(&mut self, session_ids: &[u64], event: WatchEvent) -> (r: HashMap<u64, bool>)
        ensures
            final(self)@.sessions == old(self)@.sessions,
            final(self)@.default_capacity == old(self)@.default_capacity,
            forall|s: u64| r@.contains_key(s) <==> session_ids@.contains(s),
            forall|s: u64| #[trigger] r@.contains_key(s) && !old(self)@.sessions.contains(s) ==> !r@[s],
            forall|s: u64| #[trigger] r@.contains_key(s) && r@[s] ==>
                (lookup(final(self)@.queued, s) matches Some(q) && q.len() > 0 && q.last() == event@),
            forall|s: u64| #![trigger lookup(final(self)@.dropped, s)]
                (lookup(final(self)@.dropped, s) is Some) == (lookup(old(self)@.dropped, s) is Some),
            final(self)@.offered == old(self)@.offered + batch_offers(session_ids@, old(self)@.sessions, event@),
    {
        let mut results: HashMap<u64, bool> = HashMap::new();
        let mut i: usize = 0;
        while i < session_ids.len()
            invariant
                i <= session_ids@.len(),
                self@.sessions == old(self)@.sessions,
                self@.default_capacity == old(self)@.default_capacity,
                forall|s: u64| results@.contains_key(s) <==> session_ids@.take(i as int).contains(s),
                forall|s: u64| #[trigger] results@.contains_key(s) && !old(self)@.sessions.contains(s) ==> !results@[s],
                forall|s: u64| #[trigger] results@.contains_key(s) && results@[s] ==>
                    (lookup(self@.queued, s) matches Some(q) && q.len() > 0 && q.last() == event@),
                forall|s: u64| #![trigger lookup(self@.dropped, s)]
                    (lookup(self@.dropped, s) is Some) == (lookup(old(self)@.dropped, s) is Some),
                self@.offered == old(self)@.offered + batch_offers(session_ids@.take(i as int), old(self)@.sessions, event@),
            decreases session_ids@.len() - i,
        {
            let sid = session_ids[i];
            let copy = event.clone();
            let ghost v0 = self@;
            proof {
                use_type_invariant(&self.senders);
                use_type_invariant(&self.dropped);
                lemma_queued_keys(self.senders@);
            }
            let success = self.deliver(sid, copy);
            results.insert(sid, success);
            proof {
                assert(session_ids@.take(i + 1).drop_last() =~= session_ids@.take(i as int));
                assert(session_ids@.take(i + 1).last() == sid);
                if v0.sessions.contains(sid) {
                    assert(self@.offered =~= old(self)@.offered + batch_offers(session_ids@.take(i + 1), old(self)@.sessions, event@));
                } else {
                    assert(self@.offered =~= old(self)@.offered + batch_offers(session_ids@.take(i + 1), old(self)@.sessions, event@));
                }
                if v0.sessions.contains(sid) {
                    let o = choose|o: SendOutcome| (self@, success) == #[trigger] record_result(offered_to(v0, sid, o, event@), sid, o);
                    lemma_key_pos(v0.queued, sid);
                    assert forall|s: u64| #[trigger] results@.contains_key(s) && results@[s] implies
                        (lookup(self@.queued, s) matches Some(q) && q.len() > 0 && q.last() == event@) by {
                        if o is Sent {
                            if s == sid {
                                lemma_lookup_insert(v0.queued, sid, lookup(v0.queued, sid)->0.push(event@));
                            } else {
                                lemma_lookup_insert_other(v0.queued, sid, lookup(v0.queued, sid)->0.push(event@), s);
                            }
                        }
                    }
                    assert forall|s: u64| #![trigger lookup(self@.dropped, s)]
                        (lookup(self@.dropped, s) is Some) == (lookup(old(self)@.dropped, s) is Some) by {
                        if o is Full && lookup(v0.dropped, sid) is Some {
                            let c = lookup(v0.dropped, sid)->0;
                            if s == sid {
                                lemma_lookup_insert(v0.dropped, sid, bumped(c));
                            } else {
                                lemma_lookup_insert_other(v0.dropped, sid, bumped(c), s);
                            }
                        }
                        assert(lookup(v0.dropped, s) is Some == (lookup(old(self)@.dropped, s) is Some));
                    }
                }
                let t0 = session_ids@.take(i as int);
                let t1 = session_ids@.take(i + 1);
                assert(t1 =~= t0.push(sid));
                assert forall|s: u64| results@.contains_key(s) <==> t1.contains(s) by {
                    if t0.contains(s) {
                        let k = choose|k: int| 0 <= k < t0.len() && t0[k] == s;
                        assert(t1[k] == s);
                    }
                    if t1.contains(s) && s != sid {
                        let k = choose|k: int| 0 <= k < t1.len() && t1[k] == s;
                        assert(t0[k] == s);
                    }
                    if s == sid {
                        assert(t1[i as int] == s);
                    }
                }
            }
            i = i + 1;
        }
        assert(session_ids@.take(session_ids@.len() as int) =~= session_ids@);
        results
    }

    /// The statistics of the queue of `session_id`; `None` when it has no
    /// queue.
    pub fn stats(&self, session_id: u64) -> (r: Option<QueueStats>)
        ensures
            match r {
                Some(st) => self@.sessions.contains(session_id)
                    && lookup(self@.dropped, session_id) == Some(st.dropped_total)
                    && st.capacity == self@.default_capacity
                    && st.current_depth == 0,
                None => !self@.sessions.contains(session_id) || lookup(self@.dropped, session_id) is None,
            },
    {
        proof {
            self.lemma_sessions(session_id);
            use_type_invariant(&self.senders);
            lemma_key_pos(self.senders@, session_id);
        }
        if !self.senders.contains_key(session_id) {
            return None;
        }
        let dropped = match self.dropped.get(session_id) {
            Some(c) => *c,
            None => return None,
        };
        Some(QueueStats { capacity: self.default_capacity, current_depth: 0, dropped_total: dropped })
    }

    /// The statistics of every session that has a queue and a counter.
    pub fn all_stats(&self) -> (r: HashMap<u64, QueueStats>)
        ensures
            forall|s: u64| r@.contains_key(s)
                <==> (self@.sessions.contains(s) && lookup(self@.dropped, s) is Some),
            forall|s: u64| #[trigger] r@.contains_key(s) ==> {
                &&& lookup(self@.dropped, s) == Some(r@[s].dropped_total)
                &&& r@[s].capacity == self@.default_capacity
                &&& r@[s].current_depth == 0
            },
    {
        let ghost sessions = self@.sessions;
        let mut out: HashMap<u64, QueueStats> = HashMap::new();
        let mut i: usize = 0;
        while i < self.senders.len()
            invariant
                i <= sessions.len(),
                sessions == self@.sessions,
                sessions.len() == self.senders@.len(),
                forall|s: u64| out@.contains_key(s)
                    <==> (sessions.take(i as int).contains(s) && lookup(self@.dropped, s) is Some),
                forall|s: u64| #[trigger] out@.contains_key(s) ==> {
                    &&& lookup(self@.dropped, s) == Some(out@[s].dropped_total)
                    &&& out@[s].capacity == self@.default_capacity
                    &&& out@[s].current_depth == 0
                },
            decreases sessions.len() - i,
        {
            let sid = self.senders.key_at(i);
            assert(sessions[i as int] == sid);
            assert(sessions.take(i + 1) =~= sessions.take(i as int).push(sid));
            match self.stats(sid) {
                Some(st) => {
                    out.insert(sid, st);
                },
                None => {},
            }
            proof {
                let t0 = sessions.take(i as int);
                let t1 = sessions.take(i + 1);
                assert(sessions.contains(sid));
                assert forall|s: u64| out@.contains_key(s)
                    <==> (t1.contains(s) && lookup(self@.dropped, s) is Some) by {
                    if t0.contains(s) {
                        let k = choose|k: int| 0 <= k < t0.len() && t0[k] == s;
                        assert(t1[k] == s);
                    }
                    if t1.contains(s) && s != sid {
                        let k = choose|k: int| 0 <= k < t1.len() && t1[k] == s;
                        assert(t0[k] == s);
                    }
                    if s == sid {
                        assert(t1[i as int] == s);
                    }
                }
            }
            i = i + 1;
        }
        assert(sessions.take(sessions.len() as int) =~= sessions);
        out
    }

    /// The number of dropped events over all sessions.
    pub fn total_dropped(&self) -> (r: u64)
        requires
            dropped_sum(self@.dropped) <= u64::MAX,
        ensures
            r == dropped_sum(self@.dropped),
    {
        let ghost d = self@.dropped;
        let mut total: u64 = 0;
        let mut i: usize = 0;
        while i < self.dropped.len()
            invariant
                i <= d.len(),
                d == self@.dropped,
                d.len() == self.dropped@.len(),
                dropped_sum(d) <= u64::MAX,
                total == dropped_sum(d.take(i as int)),
            decreases d.len() - i,
        {
            assert(d.take(i + 1).drop_last() =~= d.take(i as int));
            proof { lemma_dropped_sum_prefix(d, i + 1); }
            total = total + *self.dropped.value_at(i);
            i = i + 1;
        }
        assert(d.take(d.len() as int) =~= d);
        total
    }

    /// The number of sessions with a queue.
    pub fn active_session_count(&self) -> (r: usize)
        ensures
            r == self@.sessions.len(),
    {
        self.senders.len()
    }
}

/// A full queue drops the event and counts it: the session's counter goes
/// up by one (wrapping), and delivery reports failure.
pub proof fn lemma_full_queue_counts_drop(v: DeliveryView, sid: u64)
    requires
        lookup(v.dropped, sid) is Some,
    ensures
        !record_result(v, sid, SendOutcome::Full).1,
        lookup(record_result(v, sid, SendOutcome::Full).0.dropped, sid)
            == Some(bumped(lookup(v.dropped, sid)->0)),
{
    lemma_lookup_insert(v.dropped, sid, bumped(lookup(v.dropped, sid)->0));
}

} // verus!
