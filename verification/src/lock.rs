//! Coordination locks. Each lock, named under `/locks/`, keeps its waiting
//! sessions with the sequence number each was given, and the sequence
//! of the current holder. Sequences count up from 1 per lock. When the
//! holder leaves, the lock passes to the waiter with the least sequence,
//! the one that queued first.
use vstd::prelude::*;

use std::sync::Arc;

use crate::error::ErrorCode;
use crate::idmap::IdMap;
use crate::model::{NodePath, SessionId, has_parent_segment, normalize_path};
use crate::strmap::{entries_insert, entries_remove, has_key, key_pos, keys_unique, lookup, lemma_key_pos, lemma_insert_unique, lemma_remove_unique};
use crate::text::{chars_equal, chars_less, chars_lt, chars_of, lemma_chars_lt_order, owned, push_str_chars};
use crate::tree_kv::TreeKv;

verus! {

/// An instant of the standard library's monotonic clock.
#[verifier::external_type_specification]
#[verifier::external_body]
pub struct ExInstant(std::time::Instant);

/// An asynchronous reader-writer lock of `tokio`.
#[verifier::external_type_specification]
#[verifier::external_body]
#[verifier::reject_recursive_types(T)]
pub struct ExTokioRwLock<T: ?Sized>(tokio::sync::RwLock<T>);

/// How an acquisition behaves when the lock is held by someone else.
#[derive(Debug, Clone, Copy, PartialEq, Eq)]
pub enum LockMode {
    /// Give up at once.
    NonBlocking,
    /// Stay queued until the lock is handed to the session; the caller
    /// waits for that with `LockManager::poll_timeout` (no deadline).
    Blocking,
    /// Stay queued and wait up to the given time (see
    /// `LockManager::poll_timeout`).
    Timeout(std::time::Duration),
}

/// The outcome of an acquisition that was not refused: the lock is held
/// by the session, or the session is queued behind the holder. Each
/// carries the lock's path and the session's sequence.
#[derive(Debug, Clone)]
pub enum LockGrant {
    Acquired(NodePath, u64),
    Queued(NodePath, u64),
}

/// What a query tells about a lock.
#[derive(Debug, Clone)]
pub struct LockState {
    pub path: NodePath,
    pub is_held: bool,
    pub holder_session_id: Option<SessionId>,
    pub queue_length: usize,
}

/// A lock as a value.
pub struct LockMetaView {
    pub lock_path: Seq<char>,
    /// The sequence of the holder, if the lock is held.
    pub min_sequence: Option<u64>,
    /// Waiting sessions with their sequences.
    pub waiters: Seq<(SessionId, u64)>,
    /// The sequence the next acquisition gets.
    pub next_sequence: u64,
}

/// A lock's bookkeeping.
#[derive(Debug)]
struct LockMeta {
    lock_path: NodePath,
    min_sequence: Option<u64>,
    waiters: IdMap<u64>,
    next_sequence: u64,
}

impl View for LockMeta {
    type V = LockMetaView;

    closed spec fn view(&self) -> LockMetaView {
        LockMetaView {
            lock_path: self.lock_path@,
            min_sequence: self.min_sequence,
            waiters: self.waiters@,
            next_sequence: self.next_sequence,
        }
    }
}

/// The text `/locks/`.
pub open spec fn locks_root() -> Seq<char> {
    seq!['/', 'l', 'o', 'c', 'k', 's', '/']
}

/// The path text of the lock named `name`.
pub open spec fn lock_path_text(name: Seq<char>) -> Seq<char> {
    locks_root() + name
}

/// The waiter with the least sequence (the one that queued first), if any.
pub open spec fn least_entry(e: Seq<(SessionId, u64)>) -> Option<(SessionId, u64)>
    decreases e.len(),
{
    if e.len() == 0 {
        None
    } else {
        match least_entry(e.drop_last()) {
            None => Some(e.last()),
            Some(m) => if e.last().1 < m.1 { Some(e.last()) } else { Some(m) },
        }
    }
}

/// The least session id among the waiters with sequence `s`, if any.
pub open spec fn least_with_seq(e: Seq<(SessionId, u64)>, s: u64) -> Option<SessionId>
    decreases e.len(),
{
    if e.len() == 0 {
        None
    } else {
        let r = least_with_seq(e.drop_last(), s);
        if e.last().1 == s {
            match r {
                None => Some(e.last().0),
                Some(k) => if e.last().0 < k { Some(e.last().0) } else { Some(k) },
            }
        } else {
            r
        }
    }
}

/// Bookkeeping of a lock that does not exist yet.
pub open spec fn fresh_lock(name: Seq<char>) -> LockMetaView {
    LockMetaView {
        lock_path: normalize_path(lock_path_text(name)),
        min_sequence: None,
        waiters: Seq::empty(),
        next_sequence: 1,
    }
}

/// The lock named `name`, or a fresh one.
pub open spec fn lock_or_fresh(v: Seq<(Seq<char>, LockMetaView)>, name: Seq<char>) -> LockMetaView {
    match lookup(v, name) {
        Some(m) => m,
        None => fresh_lock(name),
    }
}

/// The lock after `sid` queues with the next sequence; it becomes the
/// holder when the lock is free.
pub open spec fn enqueued(m: LockMetaView, sid: SessionId) -> LockMetaView {
    let s = m.next_sequence;
    LockMetaView {
        lock_path: m.lock_path,
        min_sequence: if m.min_sequence is None || s < m.min_sequence->0 { Some(s) } else { m.min_sequence },
        waiters: entries_insert(m.waiters, sid, s),
        next_sequence: (s + 1) as u64,
    }
}

/// The lock after `sid` stops waiting; an empty queue frees the lock.
pub open spec fn withdrawn(m: LockMetaView, sid: SessionId) -> LockMetaView {
    let w = entries_remove(m.waiters, sid);
    LockMetaView {
        lock_path: m.lock_path,
        min_sequence: if w.len() == 0 { None } else { m.min_sequence },
        waiters: w,
        next_sequence: m.next_sequence,
    }
}

/// The lock after `sid` leaves the queue, without choosing a new holder.
pub open spec fn without_waiter(m: LockMetaView, sid: SessionId) -> LockMetaView {
    LockMetaView {
        lock_path: m.lock_path,
        min_sequence: m.min_sequence,
        waiters: entries_remove(m.waiters, sid),
        next_sequence: m.next_sequence,
    }
}

/// The lock passed to the waiter that queued first (least sequence), or
/// freed.
pub open spec fn handed_on(m: LockMetaView) -> LockMetaView {
    LockMetaView {
        lock_path: m.lock_path,
        min_sequence: match least_entry(m.waiters) {
            Some(e) => Some(e.1),
            None => None,
        },
        waiters: m.waiters,
        next_sequence: m.next_sequence,
    }
}

/// The lock after the session `sid` disconnects: it leaves the queue,
/// and if it held the lock the lock is handed on.
pub open spec fn cleaned(m: LockMetaView, sid: SessionId) -> LockMetaView {
    match lookup(m.waiters, sid) {
        None => m,
        Some(s) => if m.min_sequence == Some(s) {
            handed_on(without_waiter(m, sid))
        } else {
            without_waiter(m, sid)
        },
    }
}

/// The names of the locks in which `sid` waits, in table order.
pub open spec fn locks_of_session(v: Seq<(Seq<char>, LockMetaView)>, sid: SessionId) -> Seq<Seq<char>>
    decreases v.len(),
{
    if v.len() == 0 {
        Seq::empty()
    } else if has_key(v.last().1.waiters, sid) {
        locks_of_session(v.drop_last(), sid).push(v.last().0)
    } else {
        locks_of_session(v.drop_last(), sid)
    }
}

/// Releasing the lock named `name` by `sid`: the lock afterwards, or the
/// refusal. An unknown lock is not found; a session that is not queued,
/// or queued without holding the lock, does not hold it; the holder
/// leaves and the lock is handed on.
pub open spec fn release_result(v: Seq<(Seq<char>, LockMetaView)>, name: Seq<char>, sid: SessionId) -> Result<LockMetaView, ErrorCode> {
    match lookup(v, name) {
        None => Err(ErrorCode::LockNotFound),
        Some(m) => match lookup(m.waiters, sid) {
            None => Err(ErrorCode::LockNotHeld),
            Some(s) => if m.min_sequence != Some(s) {
                Err(ErrorCode::LockNotHeld)
            } else {
                Ok(handed_on(without_waiter(m, sid)))
            },
        },
    }
}

/// The holder of a lock: the least session id queued with the holder's
/// sequence.
pub open spec fn holder_of(m: LockMetaView) -> Option<SessionId> {
    match m.min_sequence {
        None => None,
        Some(s) => least_with_seq(m.waiters, s),
    }
}

/// The table after session `sid` disconnects.
pub open spec fn table_cleaned(v: Seq<(Seq<char>, LockMetaView)>, sid: SessionId) -> Seq<(Seq<char>, LockMetaView)> {
    v.map_values(|e: (Seq<char>, LockMetaView)| (e.0, cleaned(e.1, sid)))
}

/// A lock entry is well formed: its name gives a valid path, which it
/// stores; its waiters are unique; every sequence handed out is below the
/// next one.
pub open spec fn lock_entry_wf(name: Seq<char>, m: LockMetaView) -> bool {
    &&& !has_parent_segment(lock_path_text(name))
    &&& m.lock_path == normalize_path(lock_path_text(name))
    &&& keys_unique(m.waiters)
    &&& m.next_sequence >= 1
    &&& forall|j: int| 0 <= j < m.waiters.len() ==> (#[trigger] m.waiters[j]).1 < m.next_sequence
    &&& (m.min_sequence matches Some(s) ==> s < m.next_sequence)
}

/// The lock table is well formed: names strictly ascending, every entry
/// well formed.
pub open spec fn lock_table_wf(v: Seq<(Seq<char>, LockMetaView)>) -> bool {
    &&& forall|i: int, j: int| 0 <= i < j < v.len() ==> chars_lt(#[trigger] v[i].0, #[trigger] v[j].0)
    &&& forall|i: int| 0 <= i < v.len() ==> lock_entry_wf(#[trigger] v[i].0, v[i].1)
}

/// `new` holds the same locks as `old` but for `name`, which holds `m`.
pub open spec fn table_put(new: Seq<(Seq<char>, LockMetaView)>, old: Seq<(Seq<char>, LockMetaView)>, name: Seq<char>, m: LockMetaView) -> bool {
    forall|k: Seq<char>| #[trigger] lookup(new, k) == (if k == name { Some(m) } else { lookup(old, k) })
}

proof fn lemma_least_entry(e: Seq<(SessionId, u64)>)
    ensures
        least_entry(e) is None <==> e.len() == 0,
        least_entry(e) matches Some(x) ==> e.contains(x) && forall|j: int| 0 <= j < e.len() ==> x.1 <= (#[trigger] e[j]).1,
    decreases e.len(),
{
    if e.len() > 0 {
        lemma_least_entry(e.drop_last());
        let x = least_entry(e)->0;
        assert forall|j: int| 0 <= j < e.len() implies x.1 <= (#[trigger] e[j]).1 by {
            if j < e.len() - 1 {
                assert(e.drop_last()[j] == e[j]);
            }
        }
        if let Some(m) = least_entry(e.drop_last()) {
            if !(e.last().1 < m.1) {
                let k = choose|k: int| 0 <= k < e.drop_last().len() && e.drop_last()[k] == m;
                assert(e[k] == m);
            }
        }
        assert(e[e.len() - 1] == e.last());
    }
}

proof fn lemma_least_with_seq(e: Seq<(SessionId, u64)>, s: u64)
    ensures
        least_with_seq(e, s) matches Some(k) ==> e.contains((k, s)),
        least_with_seq(e, s) is None ==> forall|j: int| 0 <= j < e.len() ==> (#[trigger] e[j]).1 != s,
        least_with_seq(e, s) matches Some(k) ==> forall|j: int| 0 <= j < e.len() && (#[trigger] e[j]).1 == s ==> k <= e[j].0,
    decreases e.len(),
{
    if e.len() > 0 {
        lemma_least_with_seq(e.drop_last(), s);
        assert forall|j: int| 0 <= j < e.len() - 1 implies (#[trigger] e[j]) == e.drop_last()[j] by {}
        if let Some(k) = least_with_seq(e.drop_last(), s) {
            let i = choose|i: int| 0 <= i < e.drop_last().len() && e.drop_last()[i] == (k, s);
            assert(e[i] == (k, s));
        }
        assert(e[e.len() - 1] == e.last());
    }
}

/// The waiter that queued first (least sequence).
fn first_waiter(w: &IdMap<u64>) -> (r: Option<(SessionId, u64)>)
    ensures
        r == least_entry(w@),
{
    let mut best: Option<(SessionId, u64)> = None;
    let mut i: usize = 0;
    while i < w.len()
        invariant
            i <= w@.len(),
            best == least_entry(w@.take(i as int)),
        decreases w@.len() - i,
    {
        assert(w@.take(i + 1).drop_last() =~= w@.take(i as int));
        let k = w.key_at(i);
        let s = *w.value_at(i);
        best = match best {
            None => Some((k, s)),
            Some(m) => if s < m.1 { Some((k, s)) } else { Some(m) },
        };
        i = i + 1;
    }
    assert(w@.take(w@.len() as int) =~= w@);
    best
}

/// The least session id among the waiters with sequence `s`.
fn waiter_with_sequence(w: &IdMap<u64>, s: u64) -> (r: Option<SessionId>)
    ensures
        r == least_with_seq(w@, s),
{
    let mut best: Option<SessionId> = None;
    let mut i: usize = 0;
    while i < w.len()
        invariant
            i <= w@.len(),
            best == least_with_seq(w@.take(i as int), s),
        decreases w@.len() - i,
    {
        assert(w@.take(i + 1).drop_last() =~= w@.take(i as int));
        let k = w.key_at(i);
        if *w.value_at(i) == s {
            best = match best {
                None => Some(k),
                Some(b) => if k < b { Some(k) } else { Some(b) },
            };
        }
        i = i + 1;
    }
    assert(w@.take(w@.len() as int) =~= w@);
    best
}

impl LockMeta {
    /// Passes the lock to the waiter with the least sequence, or frees it.
    fn hand_on(&mut self)
        ensures
            final(self)@ == handed_on(old(self)@),
    {
        match first_waiter(&self.waiters) {
            Some((_, s)) => self.min_sequence = Some(s),
            None => self.min_sequence = None,
        }
    }

    /// `sid` stops waiting; an empty queue frees the lock.
    fn withdraw(&mut self, sid: SessionId)
        ensures
            final(self)@ == withdrawn(old(self)@, sid),
    {
        let _ = self.waiters.remove(sid);
        if self.waiters.is_empty() {
            self.min_sequence = None;
        }
    }
}

proof fn lemma_entry_wf_steps(name: Seq<char>, m: LockMetaView, sid: SessionId)
    requires
        lock_entry_wf(name, m),
    ensures
        m.next_sequence < u64::MAX ==> lock_entry_wf(name, enqueued(m, sid)),
        lock_entry_wf(name, withdrawn(m, sid)),
        lock_entry_wf(name, without_waiter(m, sid)),
        lock_entry_wf(name, handed_on(m)),
        lock_entry_wf(name, handed_on(without_waiter(m, sid))),
        lock_entry_wf(name, cleaned(m, sid)),
{
    lemma_insert_unique(m.waiters, sid, m.next_sequence);
    lemma_remove_unique(m.waiters, sid);
    lemma_key_pos(m.waiters, sid);
    let w2 = entries_insert(m.waiters, sid, m.next_sequence);
    assert forall|j: int| 0 <= j < w2.len() implies (#[trigger] w2[j]).1 < m.next_sequence + 1 by {
        if j < m.waiters.len() && j != key_pos(m.waiters, sid) {
            assert(w2[j] == m.waiters[j]);
        }
    }
    let w3 = entries_remove(m.waiters, sid);
    assert forall|j: int| 0 <= j < w3.len() implies (#[trigger] w3[j]).1 < m.next_sequence by {
        let jj = if j < key_pos(m.waiters, sid) || key_pos(m.waiters, sid) < 0 { j } else { j + 1 };
        assert(w3[j] == m.waiters[jj]);
    }
    lemma_least_entry(m.waiters);
    lemma_least_entry(w3);
    if let Some(x) = least_entry(m.waiters) {
        let j = choose|j: int| 0 <= j < m.waiters.len() && m.waiters[j] == x;
        assert(m.waiters[j].1 < m.next_sequence);
    }
    if let Some(x) = least_entry(w3) {
        let j = choose|j: int| 0 <= j < w3.len() && w3[j] == x;
        assert(w3[j].1 < m.next_sequence);
    }
}

/// The table as values.
spec fn table_view(t: Seq<(String, LockMeta)>) -> Seq<(Seq<char>, LockMetaView)> {
    t.map_values(|p: (String, LockMeta)| (p.0@, p.1@))
}

proof fn lemma_table_unique(v: Seq<(Seq<char>, LockMetaView)>)
    requires
        lock_table_wf(v),
    ensures
        keys_unique(v),
{
    assert forall|i: int, j: int| 0 <= i < v.len() && 0 <= j < v.len() && i != j implies (#[trigger] v[i]).0 != (#[trigger] v[j]).0 by {
        lemma_chars_lt_order(v[i].0, v[j].0, v[j].0);
        if i < j {
            assert(chars_lt(v[i].0, v[j].0));
        } else {
            assert(chars_lt(v[j].0, v[i].0));
            lemma_chars_lt_order(v[j].0, v[i].0, v[i].0);
        }
    }
}

/// Replacing the lock at a position keeps the table well formed.
proof fn lemma_table_update(v: Seq<(Seq<char>, LockMetaView)>, i: int, m: LockMetaView)
    requires
        lock_table_wf(v),
        0 <= i < v.len(),
        lock_entry_wf(v[i].0, m),
    ensures
        lock_table_wf(v.update(i, (v[i].0, m))),
        table_put(v.update(i, (v[i].0, m)), v, v[i].0, m),
{
    let v2 = v.update(i, (v[i].0, m));
    lemma_table_unique(v);
    lemma_table_unique(v2);
    lemma_key_pos(v, v[i].0);
    assert(v2 == entries_insert(v, v[i].0, m));
    lemma_insert_unique(v, v[i].0, m);
}

/// Inserting a new lock at the position that keeps the names ascending
/// keeps the table well formed.
proof fn lemma_table_insert(v: Seq<(Seq<char>, LockMetaView)>, p: int, name: Seq<char>, m: LockMetaView)
    requires
        lock_table_wf(v),
        0 <= p <= v.len(),
        forall|j: int| 0 <= j < p ==> chars_lt(#[trigger] v[j].0, name),
        forall|j: int| p <= j < v.len() ==> chars_lt(name, #[trigger] v[j].0),
        lock_entry_wf(name, m),
    ensures
        lock_table_wf(v.insert(p, (name, m))),
        table_put(v.insert(p, (name, m)), v, name, m),
{
    let v2 = v.insert(p, (name, m));
    assert forall|i: int, j: int| 0 <= i < j < v2.len() implies chars_lt(#[trigger] v2[i].0, #[trigger] v2[j].0) by {
        if j < p {
            assert(v2[i] == v[i] && v2[j] == v[j]);
        } else if j == p {
            assert(v2[i] == v[i]);
        } else if i < p {
            assert(v2[i] == v[i] && v2[j] == v[j - 1]);
            lemma_chars_lt_order(v[i].0, name, v[j - 1].0);
        } else if i == p {
            assert(v2[j] == v[j - 1]);
        } else {
            assert(v2[i] == v[i - 1] && v2[j] == v[j - 1]);
        }
    }
    assert forall|i: int| 0 <= i < v2.len() implies lock_entry_wf(#[trigger] v2[i].0, v2[i].1) by {
        if i < p {
            assert(v2[i] == v[i]);
        } else if i > p {
            assert(v2[i] == v[i - 1]);
        }
    }
    lemma_table_unique(v);
    lemma_table_unique(v2);
    lemma_key_pos(v, name);
    if has_key(v, name) {
        let k = choose|k: int| 0 <= k < v.len() && (#[trigger] v[k]).0 == name;
        if k < p {
            lemma_chars_lt_order(name, name, name);
        } else {
            lemma_chars_lt_order(name, name, name);
        }
    }
    assert(v2 =~= v.push((name, m)).remove(v.len() as int).insert(p, (name, m)));
    assert forall|k: Seq<char>| #[trigger] lookup(v2, k) == (if k == name { Some(m) } else { lookup(v, k) }) by {
        lemma_key_pos(v2, k);
        lemma_key_pos(v, k);
        if k == name {
            assert(v2[p].0 == name);
        } else {
            if key_pos(v, k) >= 0 {
                let q = key_pos(v, k);
                let qq = if q < p { q } else { q + 1 };
                assert(v2[qq] == v[q]);
            }
            if key_pos(v2, k) >= 0 {
                let q = key_pos(v2, k);
                let qq = if q < p { q } else { q - 1 };
                assert(v2[q] == v[qq]);
            }
        }
    }
}

/// The locks of the service.
#[derive(Debug)]
pub struct LockManager {
    locks: Vec<(String, LockMeta)>,
    tree_kv: Arc<tokio::sync::RwLock<TreeKv>>,
    start_time: std::time::Instant,
}

impl View for LockManager {
    type V = Seq<(Seq<char>, LockMetaView)>;

    /// The locks in ascending order of name.
    closed spec fn view(&self) -> Seq<(Seq<char>, LockMetaView)> {
        table_view(self.locks@)
    }
}

impl LockManager {
    /// The lock table stays well formed.
    #[verifier::type_invariant]
    spec fn table_is_wf(self) -> bool {
        lock_table_wf(table_view(self.locks@))
    }

    /// The shared store the manager was made over.
    pub closed spec fn store(&self) -> Arc<tokio::sync::RwLock<TreeKv>> {
        self.tree_kv
    }

    /// The instant the manager was made at.
    pub closed spec fn started_at(&self) -> std::time::Instant {
        self.start_time
    }

    /// A manager without locks over the given store.
    pub fn new(tree_kv: Arc<tokio::sync::RwLock<TreeKv>>, start_time: std::time::Instant) -> (r: LockManager)
        ensures
            r@ == Seq::<(Seq<char>, LockMetaView)>::empty(),
            lock_table_wf(r@),
            r.store() == tree_kv,
            r.started_at() == start_time,
    {
        let r = LockManager { locks: Vec::new(), tree_kv, start_time };
        assert(r@ =~= Seq::<(Seq<char>, LockMetaView)>::empty());
        r
    }

    /// The position of the lock named `name`.
    fn find_lock(&self, name: &Vec<char>) -> (r: Option<usize>)
        requires
            lock_table_wf(self@),
        ensures
            match r {
                Some(i) => i < self@.len() && self@[i as int].0 == name@ && key_pos(self@, name@) == i,
                None => key_pos(self@, name@) == -1 && lookup(self@, name@) is None,
            },
    {
        proof {
            lemma_table_unique(self@);
            lemma_key_pos(self@, name@);
        }
        let mut i: usize = 0;
        while i < self.locks.len()
            invariant
                i <= self@.len(),
                self@.len() == self.locks@.len(),
                keys_unique(self@),
                forall|j: int| 0 <= j < i ==> (#[trigger] self@[j]).0 != name@,
            decreases self@.len() - i,
        {
            let key = chars_of(self.locks[i].0.as_str());
            assert(self@[i as int].0 == self.locks@[i as int].0@);
            if chars_equal(&key, name) {
                proof { lemma_key_pos(self@, name@); }
                return Some(i);
            }
            i = i + 1;
        }
        None
    }

    /// The position where a lock named `name`, absent from the table,
    /// keeps the names ascending.
    fn insert_position(&self, name: &Vec<char>) -> (r: usize)
        requires
            lock_table_wf(self@),
            forall|j: int| 0 <= j < self@.len() ==> (#[trigger] self@[j]).0 != name@,
        ensures
            r <= self@.len(),
            forall|j: int| 0 <= j < r ==> chars_lt(#[trigger] self@[j].0, name@),
            forall|j: int| r <= j < self@.len() ==> chars_lt(name@, #[trigger] self@[j].0),
    {
        let mut i: usize = 0;
        while i < self.locks.len()
            invariant
                i <= self@.len(),
                self@.len() == self.locks@.len(),
                lock_table_wf(self@),
                forall|j: int| 0 <= j < self@.len() ==> (#[trigger] self@[j]).0 != name@,
                forall|j: int| 0 <= j < i ==> chars_lt(#[trigger] self@[j].0, name@),
            decreases self@.len() - i,
        {
            let key = chars_of(self.locks[i].0.as_str());
            assert(self@[i as int].0 == self.locks@[i as int].0@);
            if !chars_less(&key, name) {
                proof {
                    lemma_chars_lt_order(key@, name@, name@);
                    assert forall|j: int| i <= j < self@.len() implies chars_lt(name@, #[trigger] self@[j].0) by {
                        if j > i {
                            lemma_chars_lt_order(name@, key@, self@[j].0);
                        }
                    }
                }
                return i;
            }
            i = i + 1;
        }
        i
    }

    /// Queues `session_id` on the lock `lock_name` (made on first use)
    /// with the lock's next sequence; the session holds the lock when it
    /// was free. A lock name that does not give a valid path under
    /// `/locks/` is refused. When the lock is held by another session: in
    /// non-blocking mode the session leaves the queue and the lock is
    /// busy; otherwise the session stays queued, which the result says
    /// (the caller then waits with `poll_timeout`).
    pub fn acquire(&mut self, lock_name: &str, session_id: SessionId, mode: LockMode) -> (r: Result<LockGrant, ErrorCode>)
        requires
            lookup(old(self)@, lock_name@) matches Some(m) ==> m.next_sequence < u64::MAX,
        ensures
            lock_table_wf(final(self)@),
            has_parent_segment(lock_path_text(lock_name@)) ==> r == Err::<LockGrant, ErrorCode>(ErrorCode::InvalidPath)
                && final(self)@ == old(self)@,
            !has_parent_segment(lock_path_text(lock_name@)) ==> ({
                let m0 = lock_or_fresh(old(self)@, lock_name@);
                let m1 = enqueued(m0, session_id);
                if m1.min_sequence == Some(m0.next_sequence) {
                    &&& table_put(final(self)@, old(self)@, lock_name@, m1)
                    &&& r matches Ok(LockGrant::Acquired(p, s)) && p@ == m1.lock_path && s == m0.next_sequence
                } else if !(mode is NonBlocking) {
                    &&& table_put(final(self)@, old(self)@, lock_name@, m1)
                    &&& r matches Ok(LockGrant::Queued(p, s)) && p@ == m1.lock_path && s == m0.next_sequence
                } else {
                    &&& table_put(final(self)@, old(self)@, lock_name@, withdrawn(m1, session_id))
                    &&& r == Err::<LockGrant, ErrorCode>(ErrorCode::LockBusy)
                }
            }),
    {
        proof { use_type_invariant(&*self); }
        let mut text = String::new();
        push_str_chars(&mut text, "/locks/");
        push_str_chars(&mut text, lock_name);
        proof {
            reveal_strlit("/locks/");
            assert(text@ =~= lock_path_text(lock_name@));
        }
        let lock_path = match NodePath::parse(text.as_str()) {
            Ok(p) => p,
            Err(_) => return Err(ErrorCode::InvalidPath),
        };
        let name = chars_of(lock_name);
        let ghost v = self@;
        proof {
            lemma_table_unique(v);
            lemma_key_pos(v, name@);
        }
        let found = self.find_lock(&name);
        let new_pos: usize = match found {
            Some(i) => i,
            None => self.insert_position(&name),
        };
        let mut locks: Vec<(String, LockMeta)> = Vec::new();
        std::mem::swap(&mut locks, &mut self.locks);
        assert(table_view(locks@) == v);
        let (pos, key, mut meta) = match found {
            Some(i) => {
                let (k, m) = locks.remove(i);
                assert(v[i as int] == (k@, m@));
                proof { lemma_key_pos(v, name@); }
                (i, k, m)
            },
            None => {
                let p = new_pos;
                let m = LockMeta {
                    lock_path: lock_path.clone(),
                    min_sequence: None,
                    waiters: IdMap::new(),
                    next_sequence: 1,
                };
                assert(m@ == fresh_lock(lock_name@)) by {
                    assert(m@.waiters =~= Seq::<(SessionId, u64)>::empty());
                }
                (p, owned(lock_name), m)
            },
        };
        let ghost m0 = meta@;
        assert(m0 == lock_or_fresh(v, lock_name@));
        assert(lock_entry_wf(lock_name@, m0)) by {
            if found is Some {
                assert(lock_entry_wf(v[pos as int].0, v[pos as int].1));
            } else {
                assert(m0.waiters =~= Seq::<(SessionId, u64)>::empty());
            }
        }
        proof {
            lemma_entry_wf_steps(lock_name@, m0, session_id);
            lemma_entry_wf_steps(lock_name@, enqueued(m0, session_id), session_id);
        }
        let sequence = meta.next_sequence;
        meta.next_sequence = sequence + 1;
        meta.waiters.insert(session_id, sequence);
        let becomes_holder = match meta.min_sequence {
            None => true,
            Some(m) => sequence < m,
        };
        if becomes_holder {
            meta.min_sequence = Some(sequence);
        }
        assert(meta@ == enqueued(m0, session_id));
        let acquired = match meta.min_sequence {
            Some(m) => m == sequence,
            None => false,
        };
        let busy = !acquired && match mode {
            LockMode::NonBlocking => true,
            _ => false,
        };
        if busy {
            meta.withdraw(session_id);
        }
        let ghost m2 = meta@;
        let ghost k = key@;
        assert(k == lock_name@);
        locks.insert(pos, (key, meta));
        proof {
            if found is Some {
                assert(table_view(locks@) =~= v.update(pos as int, (lock_name@, m2)));
                lemma_table_update(v, pos as int, m2);
            } else {
                assert(table_view(locks@) =~= v.insert(pos as int, (lock_name@, m2)));
                lemma_table_insert(v, pos as int, lock_name@, m2);
            }
        }
        self.locks = locks;
        if busy {
            Err(ErrorCode::LockBusy)
        } else if acquired {
            Ok(LockGrant::Acquired(lock_path, sequence))
        } else {
            Ok(LockGrant::Queued(lock_path, sequence))
        }
    }

    /// Releases the lock `lock_name` held by `session_id` (see
    /// `release_result`).
    pub fn release(&mut self, lock_name: &str, session_id: SessionId) -> (r: Result<(), ErrorCode>)
        ensures
            lock_table_wf(final(self)@),
            match release_result(old(self)@, lock_name@, session_id) {
                Err(e) => r == Err::<(), ErrorCode>(e) && final(self)@ == old(self)@,
                Ok(m) => r == Ok::<(), ErrorCode>(()) && table_put(final(self)@, old(self)@, lock_name@, m),
            },
    {
        proof { use_type_invariant(&*self); }
        let name = chars_of(lock_name);
        let ghost v = self@;
        proof {
            lemma_table_unique(v);
            lemma_key_pos(v, name@);
        }
        let i = match self.find_lock(&name) {
            None => return Err(ErrorCode::LockNotFound),
            Some(i) => i,
        };
        assert(v[i as int] == (self.locks@[i as int].0@, self.locks@[i as int].1@));
        assert(lock_entry_wf(v[i as int].0, v[i as int].1));
        let my_sequence = match self.locks[i].1.waiters.get(session_id) {
            None => return Err(ErrorCode::LockNotHeld),
            Some(s) => *s,
        };
        match self.locks[i].1.min_sequence {
            Some(m) => {
                if m != my_sequence {
                    return Err(ErrorCode::LockNotHeld);
                }
            },
            None => return Err(ErrorCode::LockNotHeld),
        }
        let mut locks: Vec<(String, LockMeta)> = Vec::new();
        std::mem::swap(&mut locks, &mut self.locks);
        assert(table_view(locks@) == v);
        let (key, mut meta) = locks.remove(i);
        let ghost m0 = meta@;
        let _ = meta.waiters.remove(session_id);
        assert(meta@ == without_waiter(m0, session_id));
        meta.hand_on();
        let ghost m2 = meta@;
        proof { lemma_entry_wf_steps(v[i as int].0, m0, session_id); }
        locks.insert(i, (key, meta));
        proof {
            assert(table_view(locks@) =~= v.update(i as int, (v[i as int].0, m2)));
            lemma_table_update(v, i as int, m2);
        }
        self.locks = locks;
        Ok(())
    }

    /// The state of the lock `lock_name`: its path, whether it is held, its
    /// holder and the number of queued sessions. An unknown lock is not
    /// found.
    pub fn get_state(&self, lock_name: &str) -> (r: Result<LockState, ErrorCode>)
        ensures
            match lookup(self@, lock_name@) {
                None => r matches Err(e) && e == ErrorCode::LockNotFound,
                Some(m) => r matches Ok(st)
                    && st.path@ == m.lock_path
                    && st.is_held == (m.min_sequence is Some)
                    && st.holder_session_id == holder_of(m)
                    && st.queue_length == m.waiters.len(),
            },
    {
        proof { use_type_invariant(self); }
        let name = chars_of(lock_name);
        proof {
            lemma_table_unique(self@);
            lemma_key_pos(self@, name@);
        }
        let i = match self.find_lock(&name) {
            None => return Err(ErrorCode::LockNotFound),
            Some(i) => i,
        };
        let meta = &self.locks[i].1;
        assert(self@[i as int] == (self.locks@[i as int].0@, meta@));
        let holder_session_id = match meta.min_sequence {
            None => None,
            Some(s) => waiter_with_sequence(&meta.waiters, s),
        };
        Ok(LockState {
            path: meta.lock_path.clone(),
            is_held: meta.min_sequence.is_some(),
            holder_session_id,
            queue_length: meta.waiters.len(),
        })
    }

    /// Passes the lock `lock_name` to the queued session with the least
    /// sequence (the one that queued first), or frees it when nobody is
    /// queued; nothing happens for an unknown lock.
    pub fn on_lock_released(&mut self, lock_name: &str)
        ensures
            lock_table_wf(final(self)@),
            match lookup(old(self)@, lock_name@) {
                None => final(self)@ == old(self)@,
                Some(m) => table_put(final(self)@, old(self)@, lock_name@, handed_on(m)),
            },
    {
        proof { use_type_invariant(&*self); }
        let name = chars_of(lock_name);
        let ghost v = self@;
        proof {
            lemma_table_unique(v);
            lemma_key_pos(v, name@);
        }
        match self.find_lock(&name) {
            None => {},
            Some(i) => {
                assert(v[i as int] == (self.locks@[i as int].0@, self.locks@[i as int].1@));
                assert(lock_entry_wf(v[i as int].0, v[i as int].1));
                let mut locks: Vec<(String, LockMeta)> = Vec::new();
                std::mem::swap(&mut locks, &mut self.locks);
                assert(table_view(locks@) == v);
                let (key, mut meta) = locks.remove(i);
                let ghost m0 = meta@;
                meta.hand_on();
                let ghost m2 = meta@;
                proof { lemma_entry_wf_steps(v[i as int].0, m0, 0); }
                locks.insert(i, (key, meta));
                proof {
                    assert(table_view(locks@) =~= v.update(i as int, (v[i as int].0, m2)));
                    lemma_table_update(v, i as int, m2);
                }
                self.locks = locks;
            },
        }
    }

    /// Removes `session_id` from every lock queue, handing on the locks it
    /// held, and gives the names of the locks it was queued on, in
    /// ascending order.
    pub fn cleanup_session(&mut self, session_id: SessionId) -> (r: Vec<String>)
        ensures
            lock_table_wf(final(self)@),
            final(self)@ == table_cleaned(old(self)@, session_id),
            r@.map_values(|s: String| s@) == locks_of_session(old(self)@, session_id),
    {
        proof { use_type_invariant(&*self); }
        let ghost v = self@;
        let mut locks: Vec<(String, LockMeta)> = Vec::new();
        std::mem::swap(&mut locks, &mut self.locks);
        assert(table_view(locks@) == v);
        let mut released: Vec<String> = Vec::new();
        let mut i: usize = 0;
        while i < locks.len()
            invariant
                i <= v.len(),
                table_view(locks@).len() == v.len(),
                locks@.len() == v.len(),
                v == old(self)@,
                lock_table_wf(v),
                lock_table_wf(table_view(locks@)),
                forall|k: int| 0 <= k < i ==> #[trigger] table_view(locks@)[k] == (v[k].0, cleaned(v[k].1, session_id)),
                forall|k: int| i <= k < v.len() ==> #[trigger] table_view(locks@)[k] == v[k],
                released@.map_values(|s: String| s@) == locks_of_session(v.take(i as int), session_id),
            decreases v.len() - i,
        {
            assert(v.take(i + 1).drop_last() =~= v.take(i as int));
            assert(table_view(locks@)[i as int] == (locks@[i as int].0@, locks@[i as int].1@));
            assert(lock_entry_wf(v[i as int].0, v[i as int].1));
            let ghost before = table_view(locks@);
            let found = match locks[i].1.waiters.get(session_id) {
                Some(s) => Some(*s),
                None => None,
            };
            match found {
                Some(my_sequence) => {
                    let was_holder = match locks[i].1.min_sequence {
                        Some(m) => m == my_sequence,
                        None => false,
                    };
                    let (key, mut meta) = locks.remove(i);
                    let ghost m0 = meta@;
                    let _ = meta.waiters.remove(session_id);
                    if was_holder {
                        meta.hand_on();
                    }
                    let ghost m2 = meta@;
                    assert(m2 == cleaned(m0, session_id));
                    proof { lemma_entry_wf_steps(v[i as int].0, m0, session_id); }
                    let name = key.clone();
                    locks.insert(i, (key, meta));
                    proof {
                        assert(table_view(locks@) =~= before.update(i as int, (v[i as int].0, m2)));
                        lemma_table_update(before, i as int, m2);
                        lemma_key_pos(m0.waiters, session_id);
                    }
                    let ghost old_released = released@;
                    released.push(name);
                    assert(released@.map_values(|s: String| s@) =~= old_released.map_values(|s: String| s@).push(v[i as int].0));
                },
                None => {
                    proof {
                        lemma_key_pos(v[i as int].1.waiters, session_id);
                    }
                },
            }
            i = i + 1;
        }
        assert(v.take(v.len() as int) =~= v);
        assert(table_view(locks@) =~= table_cleaned(v, session_id));
        self.locks = locks;
        released
    }

    /// Whether `acquire` may be called for `lock_name`: the lock is new, or
    /// its sequences are not used up.
    pub fn can_queue(&self, lock_name: &str) -> (r: bool)
        ensures
            r == (lookup(self@, lock_name@) matches Some(m) ==> m.next_sequence < u64::MAX),
    {
        proof { use_type_invariant(self); }
        let name = chars_of(lock_name);
        proof {
            lemma_table_unique(self@);
            lemma_key_pos(self@, name@);
        }
        match self.find_lock(&name) {
            Some(i) => {
                assert(self@[i as int] == (self.locks@[i as int].0@, self.locks@[i as int].1@));
                self.locks[i].1.next_sequence < u64::MAX
            },
            None => true,
        }
    }

    /// One round of waiting for the lock `lock_name` (in blocking mode, or
    /// in timeout mode with a deadline), on
    /// which `session_id` queued with `sequence`: the lock and its
    /// sequence once the session holds it; otherwise, when the deadline has
    /// passed, the session leaves the queue and the wait times out; else
    /// the wait goes on (`None`).
    pub fn poll_timeout(&mut self, lock_name: &str, session_id: SessionId, sequence: u64, deadline_passed: bool) -> (r: Option<Result<(NodePath, u64), ErrorCode>>)
        requires
            lookup(old(self)@, lock_name@) is Some,
        ensures
            lock_table_wf(final(self)@),
            ({
                let m = lookup(old(self)@, lock_name@)->0;
                if m.min_sequence == Some(sequence) {
                    &&& r matches Some(Ok((p, s))) && p@ == m.lock_path && s == sequence
                    &&& final(self)@ == old(self)@
                } else if deadline_passed {
                    &&& r matches Some(Err(e)) && e == ErrorCode::LockTimeout
                    &&& table_put(final(self)@, old(self)@, lock_name@, withdrawn(m, session_id))
                } else {
                    &&& r is None
                    &&& final(self)@ == old(self)@
                }
            }),
    {
        proof { use_type_invariant(&*self); }
        let name = chars_of(lock_name);
        let ghost v = self@;
        proof {
            lemma_table_unique(v);
            lemma_key_pos(v, name@);
        }
        let i = match self.find_lock(&name) {
            Some(i) => i,
            None => return None,
        };
        assert(v[i as int] == (self.locks@[i as int].0@, self.locks@[i as int].1@));
        assert(lock_entry_wf(v[i as int].0, v[i as int].1));
        let is_min = match self.locks[i].1.min_sequence {
            Some(m) => m == sequence,
            None => false,
        };
        if is_min {
            return Some(Ok((self.locks[i].1.lock_path.clone(), sequence)));
        }
        if !deadline_passed {
            return None;
        }
        let mut locks: Vec<(String, LockMeta)> = Vec::new();
        std::mem::swap(&mut locks, &mut self.locks);
        assert(table_view(locks@) == v);
        let (key, mut meta) = locks.remove(i);
        let ghost m0 = meta@;
        meta.withdraw(session_id);
        let ghost m2 = meta@;
        proof { lemma_entry_wf_steps(v[i as int].0, m0, session_id); }
        locks.insert(i, (key, meta));
        proof {
            assert(table_view(locks@) =~= v.update(i as int, (v[i as int].0, m2)));
            lemma_table_update(v, i as int, m2);
        }
        self.locks = locks;
        Some(Err(ErrorCode::LockTimeout))
    }
}

/// Acquiring a free lock (or one that does not exist yet) makes the
/// session its holder.
pub proof fn lemma_free_lock_is_acquired(v: Seq<(Seq<char>, LockMetaView)>, name: Seq<char>, sid: SessionId)
    requires
        lock_table_wf(v),
        !has_parent_segment(lock_path_text(name)),
        lock_or_fresh(v, name).min_sequence is None,
    ensures
        enqueued(lock_or_fresh(v, name), sid).min_sequence == Some(lock_or_fresh(v, name).next_sequence),
        holder_of(enqueued(lock_or_fresh(v, name), sid)) == Some(sid),
{
    let m0 = lock_or_fresh(v, name);
    lemma_table_unique(v);
    lemma_key_pos(v, name);
    if let Some(m) = lookup(v, name) {
        assert(lock_entry_wf(v[key_pos(v, name)].0, v[key_pos(v, name)].1));
    } else {
        assert(m0.waiters =~= Seq::<(SessionId, u64)>::empty());
    }
    let s = m0.next_sequence;
    let w = entries_insert(m0.waiters, sid, s);
    lemma_key_pos(m0.waiters, sid);
    lemma_insert_unique(m0.waiters, sid, s);
    lemma_least_with_seq(w, s);
    lemma_key_pos(w, sid);
    assert forall|j: int| 0 <= j < w.len() && (#[trigger] w[j]).1 == s implies w[j].0 == sid by {
        if j < m0.waiters.len() && j != key_pos(m0.waiters, sid) {
            assert(w[j] == m0.waiters[j]);
        }
    }
    let k = least_with_seq(w, s)->0;
    let i = choose|i: int| 0 <= i < w.len() && w[i] == (k, s);
    assert(w[i].1 == s);
}

/// A non-blocking acquisition of a held lock with a non-empty queue, by a
/// session that is not queued, leaves the holder and the queue as they
/// were.
pub proof fn lemma_busy_lock_unchanged(v: Seq<(Seq<char>, LockMetaView)>, name: Seq<char>, sid: SessionId)
    requires
        lock_table_wf(v),
        lookup(v, name) matches Some(m) && m.min_sequence is Some && m.waiters.len() > 0 && !has_key(m.waiters, sid),
    ensures
        ({
            let m = lookup(v, name)->0;
            let m1 = enqueued(m, sid);
            &&& m1.min_sequence != Some(m.next_sequence)
            &&& withdrawn(m1, sid).waiters == m.waiters
            &&& withdrawn(m1, sid).min_sequence == m.min_sequence
            &&& holder_of(withdrawn(m1, sid)) == holder_of(m)
        }),
{
    let m = lookup(v, name)->0;
    lemma_table_unique(v);
    lemma_key_pos(v, name);
    assert(lock_entry_wf(v[key_pos(v, name)].0, v[key_pos(v, name)].1));
    lemma_key_pos(m.waiters, sid);
    let w = entries_insert(m.waiters, sid, m.next_sequence);
    lemma_insert_unique(m.waiters, sid, m.next_sequence);
    lemma_key_pos(w, sid);
    assert(key_pos(w, sid) == m.waiters.len());
    assert(w.remove(m.waiters.len() as int) =~= m.waiters);
}

/// When the holder is the only queued session, releasing the lock frees
/// it and empties the queue.
pub proof fn lemma_sole_holder_release_frees(v: Seq<(Seq<char>, LockMetaView)>, name: Seq<char>, sid: SessionId, s: u64)
    requires
        lookup(v, name) matches Some(m) && m.waiters == seq![(sid, s)] && m.min_sequence == Some(s),
    ensures
        release_result(v, name, sid) matches Ok(m2) && m2.min_sequence is None && m2.waiters.len() == 0,
{
    let m = lookup(v, name)->0;
    lemma_key_pos(m.waiters, sid);
    assert(m.waiters[0].0 == sid);
    let w = entries_remove(m.waiters, sid);
    assert(w =~= Seq::<(SessionId, u64)>::empty());
    lemma_least_entry(w);
}

/// After a session disconnects it is queued on no lock, and a lock it held
/// alone is free.
pub proof fn lemma_cleanup_leaves_no_trace(v: Seq<(Seq<char>, LockMetaView)>, sid: SessionId, k: int)
    requires
        lock_table_wf(v),
        0 <= k < v.len(),
    ensures
        !has_key(table_cleaned(v, sid)[k].1.waiters, sid),
        v[k].1.waiters.len() == 1 && v[k].1.waiters[0].0 == sid && v[k].1.min_sequence == Some(v[k].1.waiters[0].1)
            ==> table_cleaned(v, sid)[k].1.min_sequence is None,
{
    let m = v[k].1;
    assert(lock_entry_wf(v[k].0, m));
    lemma_key_pos(m.waiters, sid);
    lemma_remove_unique(m.waiters, sid);
    if m.waiters.len() == 1 && m.waiters[0].0 == sid && m.min_sequence == Some(m.waiters[0].1) {
        let w = entries_remove(m.waiters, sid);
        assert(w =~= Seq::<(SessionId, u64)>::empty());
        lemma_least_entry(w);
    }
}

/// Handing a lock on gives it to the waiter that queued first: the new
/// holder's sequence belongs to a waiter and is the least of all waiters'
/// sequences; the lock is free exactly when nobody waits; the queue is
/// left as it is.
pub proof fn lemma_hand_on_goes_to_first_queued(m: LockMetaView)
    ensures
        handed_on(m).waiters == m.waiters,
        handed_on(m).min_sequence is None <==> m.waiters.len() == 0,
        handed_on(m).min_sequence matches Some(s) ==> {
            &&& exists|j: int| 0 <= j < m.waiters.len() && (#[trigger] m.waiters[j]).1 == s
            &&& forall|j: int| 0 <= j < m.waiters.len() ==> s <= (#[trigger] m.waiters[j]).1
        },
        handed_on(m).min_sequence matches Some(s) ==> (holder_of(handed_on(m)) matches Some(k) && m.waiters.contains((k, s))),
{
    lemma_least_entry(m.waiters);
    if let Some(x) = least_entry(m.waiters) {
        let j = choose|j: int| 0 <= j < m.waiters.len() && m.waiters[j] == x;
        assert(m.waiters[j].1 == x.1);
        lemma_least_with_seq(m.waiters, x.1);
        if least_with_seq(m.waiters, x.1) is None {
            assert(m.waiters[j].1 != x.1);
        }
    }
}

/// When the holder releases a lock, the lock passes to the remaining
/// waiter that queued first (least sequence), whatever the session ids;
/// with nobody left the lock is free. The queue loses the releasing
/// session only.
pub proof fn lemma_release_hands_to_first_queued(v: Seq<(Seq<char>, LockMetaView)>, name: Seq<char>, sid: SessionId)
    requires
        release_result(v, name, sid) is Ok,
    ensures
        release_result(v, name, sid) matches Ok(m2) && {
            let m0 = lookup(v, name)->0;
            &&& m2.waiters == entries_remove(m0.waiters, sid)
            &&& (m2.min_sequence is None <==> m2.waiters.len() == 0)
            &&& (m2.min_sequence matches Some(s) ==> {
                &&& exists|j: int| 0 <= j < m2.waiters.len() && (#[trigger] m2.waiters[j]).1 == s
                &&& forall|j: int| 0 <= j < m2.waiters.len() ==> s <= (#[trigger] m2.waiters[j]).1
                &&& holder_of(m2) matches Some(k) && m2.waiters.contains((k, s))
            })
        },
{
    let m0 = lookup(v, name)->0;
    lemma_hand_on_goes_to_first_queued(without_waiter(m0, sid));
}

/// Queueing on a held lock never takes it from its holder: the holder's
/// sequence stays, and the newcomer waits behind every earlier waiter.
pub proof fn lemma_queueing_keeps_holder(v: Seq<(Seq<char>, LockMetaView)>, name: Seq<char>, sid: SessionId)
    requires
        lock_table_wf(v),
        lookup(v, name) matches Some(m) && m.min_sequence is Some,
    ensures
        ({
            let m = lookup(v, name)->0;
            &&& enqueued(m, sid).min_sequence == m.min_sequence
            &&& forall|j: int| 0 <= j < m.waiters.len() ==> (#[trigger] m.waiters[j]).1 < m.next_sequence
            &&& m.min_sequence->0 < m.next_sequence
        }),
{
    lemma_table_unique(v);
    lemma_key_pos(v, name);
    assert(lock_entry_wf(v[key_pos(v, name)].0, v[key_pos(v, name)].1));
}

} // verus!
