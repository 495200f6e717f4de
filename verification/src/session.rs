//! Sessions: leases that clients renew by heartbeats, and the ephemeral
//! nodes bound to each session.
//!
//! Time is a count of milliseconds on a monotonic clock, handed in by the
//! caller; a lease is valid up to and including its deadline.
use vstd::prelude::*;

use std::collections::HashMap;

use crate::error::ErrorCode;
use crate::idmap::IdMap;
use crate::model::SessionId;
use crate::strmap::{entries_insert, entries_remove, has_key, key_pos, keys_unique, lookup, map_entries, lemma_map_entries, lemma_key_pos, lemma_lookup_insert};
use crate::text::owned;

verus! {

broadcast use vstd::std_specs::hash::group_hash_axioms;

/// The state of a session.
#[derive(Debug, Clone, Copy, PartialEq, Eq, Structural)]
pub enum SessionState {
    /// Working normally.
    Active,
    /// Its lease ran out; waiting to be cleaned up.
    Expired,
    /// Closed by its client.
    Closed,
}

/// A session as a value.
#[verifier::ext_equal]
pub struct SessionMetaView {
    pub id: SessionId,
    pub created_at: u64,
    pub lease_deadline: u64,
    pub timeout_ms: u64,
    pub state: SessionState,
    pub ephemeral_nodes: Seq<Seq<char>>,
}

/// The characters of each string of a list.
pub open spec fn strings_view(v: Vec<String>) -> Seq<Seq<char>> {
    v@.map_values(|s: String| s@)
}

/// A session's metadata.
#[derive(Debug, Clone)]
pub struct SessionMeta {
    pub id: SessionId,
    /// When the session was created.
    pub created_at: u64,
    /// The last instant at which the lease is valid.
    pub lease_deadline: u64,
    /// The lease length, in milliseconds.
    pub timeout_ms: u64,
    pub state: SessionState,
    /// Paths of the ephemeral nodes the session created.
    pub ephemeral_nodes: Vec<String>,
}

impl View for SessionMeta {
    type V = SessionMetaView;

    open spec fn view(&self) -> SessionMetaView {
        SessionMetaView {
            id: self.id,
            created_at: self.created_at,
            lease_deadline: self.lease_deadline,
            timeout_ms: self.timeout_ms,
            state: self.state,
            ephemeral_nodes: strings_view(self.ephemeral_nodes),
        }
    }
}

/// Whether a lease has run out at `now`.
pub open spec fn lease_expired(m: SessionMetaView, now: u64) -> bool {
    now > m.lease_deadline
}

/// The session with another state.
pub open spec fn with_state(m: SessionMetaView, state: SessionState) -> SessionMetaView {
    SessionMetaView {
        id: m.id,
        created_at: m.created_at,
        lease_deadline: m.lease_deadline,
        timeout_ms: m.timeout_ms,
        state,
        ephemeral_nodes: m.ephemeral_nodes,
    }
}

/// The session with its lease renewed at `now`.
pub open spec fn renewed(m: SessionMetaView, now: u64) -> SessionMetaView {
    SessionMetaView {
        id: m.id,
        created_at: m.created_at,
        lease_deadline: (now + m.timeout_ms) as u64,
        timeout_ms: m.timeout_ms,
        state: m.state,
        ephemeral_nodes: m.ephemeral_nodes,
    }
}

/// The session with one more ephemeral node.
pub open spec fn with_ephemeral(m: SessionMetaView, node: Seq<char>) -> SessionMetaView {
    SessionMetaView {
        id: m.id,
        created_at: m.created_at,
        lease_deadline: m.lease_deadline,
        timeout_ms: m.timeout_ms,
        state: m.state,
        ephemeral_nodes: m.ephemeral_nodes.push(node),
    }
}

impl SessionMeta {
    /// Whether the lease has run out at `now`.
    pub fn is_expired(&self, now: u64) -> (r: bool)
        ensures
            r == lease_expired(self@, now),
    {
        now > self.lease_deadline
    }

    /// Renews the lease: it now runs `timeout_ms` from `now`.
    pub fn renew(&mut self, now: u64)
        requires
            now + old(self).timeout_ms <= u64::MAX,
        ensures
            final(self)@ == renewed(old(self)@, now),
    {
        self.lease_deadline = now + self.timeout_ms;
    }
}

/// The session manager as a value.
pub struct SessionManagerView {
    /// The sessions, in creation order.
    pub sessions: Seq<(SessionId, SessionMetaView)>,
    pub default_timeout_ms: u64,
    /// The id the next session gets.
    pub next_session_id: SessionId,
    /// Sessions closed since the last purge, in order of closing.
    pub closed_sessions: Seq<SessionId>,
}

/// The manager with other sessions.
pub open spec fn with_sessions(v: SessionManagerView, sessions: Seq<(SessionId, SessionMetaView)>) -> SessionManagerView {
    SessionManagerView {
        sessions,
        default_timeout_ms: v.default_timeout_ms,
        next_session_id: v.next_session_id,
        closed_sessions: v.closed_sessions,
    }
}

/// A fresh session created at `now`.
pub open spec fn fresh_session(id: SessionId, now: u64, timeout_ms: u64) -> SessionMetaView {
    SessionMetaView {
        id,
        created_at: now,
        lease_deadline: (now + timeout_ms) as u64,
        timeout_ms,
        state: SessionState::Active,
        ephemeral_nodes: Seq::empty(),
    }
}

/// The manager after creating a session at `now`.
pub open spec fn created(v: SessionManagerView, now: u64) -> SessionManagerView {
    SessionManagerView {
        sessions: entries_insert(v.sessions, v.next_session_id, fresh_session(v.next_session_id, now, v.default_timeout_ms)),
        default_timeout_ms: v.default_timeout_ms,
        next_session_id: (v.next_session_id + 1) as u64,
        closed_sessions: v.closed_sessions,
    }
}

/// Whether a heartbeat of `sid` at `now` renews a lease.
pub open spec fn heartbeat_renews(v: SessionManagerView, sid: SessionId, now: u64) -> bool {
    lookup(v.sessions, sid) matches Some(s) && s.state == SessionState::Active && !lease_expired(s, now)
}

/// A heartbeat of `sid` at `now`: the manager after it and the answer.
/// An unknown session is not found; a session that is not active is
/// refused as expired; an active session whose lease ran out becomes
/// expired and is refused; any other session has its lease renewed.
pub open spec fn heartbeat_outcome(v: SessionManagerView, sid: SessionId, now: u64) -> (SessionManagerView, Result<(), ErrorCode>) {
    match lookup(v.sessions, sid) {
        None => (v, Err(ErrorCode::SessionNotFound)),
        Some(s) => if s.state != SessionState::Active {
            (v, Err(ErrorCode::SessionExpired))
        } else if lease_expired(s, now) {
            (with_sessions(v, entries_insert(v.sessions, sid, with_state(s, SessionState::Expired))), Err(ErrorCode::SessionExpired))
        } else {
            (with_sessions(v, entries_insert(v.sessions, sid, renewed(s, now))), Ok(()))
        },
    }
}

/// Closing `sid`: the manager after it and the answer, the session's
/// ephemeral nodes. An unknown or already closed session is not found.
pub open spec fn close_outcome(v: SessionManagerView, sid: SessionId) -> (SessionManagerView, Result<Seq<Seq<char>>, ErrorCode>) {
    match lookup(v.sessions, sid) {
        None => (v, Err(ErrorCode::SessionNotFound)),
        Some(s) => if s.state == SessionState::Closed {
            (v, Err(ErrorCode::SessionNotFound))
        } else {
            (SessionManagerView {
                sessions: entries_insert(v.sessions, sid, with_state(s, SessionState::Closed)),
                default_timeout_ms: v.default_timeout_ms,
                next_session_id: v.next_session_id,
                closed_sessions: v.closed_sessions.push(sid),
            }, Ok(s.ephemeral_nodes))
        },
    }
}

/// Whether `sid` is alive at `now`: known, active and within its lease.
pub open spec fn session_alive(v: SessionManagerView, sid: SessionId, now: u64) -> bool {
    lookup(v.sessions, sid) matches Some(s) && s.state == SessionState::Active && !lease_expired(s, now)
}

/// Whether a session becomes expired when collected at `now`.
pub open spec fn newly_expired(m: SessionMetaView, now: u64) -> bool {
    m.state == SessionState::Active && lease_expired(m, now)
}

/// One entry after collecting at `now`.
pub open spec fn expire_entry(e: (SessionId, SessionMetaView), now: u64) -> (SessionId, SessionMetaView) {
    if newly_expired(e.1, now) {
        (e.0, with_state(e.1, SessionState::Expired))
    } else {
        e
    }
}

/// The sessions after collecting at `now`.
pub open spec fn expire_all(s: Seq<(SessionId, SessionMetaView)>, now: u64) -> Seq<(SessionId, SessionMetaView)> {
    s.map_values(|e: (SessionId, SessionMetaView)| expire_entry(e, now))
}

/// The number of sessions alive at `now`.
pub open spec fn count_alive(s: Seq<(SessionId, SessionMetaView)>, now: u64) -> nat
    decreases s.len(),
{
    if s.len() == 0 {
        0
    } else {
        count_alive(s.drop_last(), now) + (if s.last().1.state == SessionState::Active && !lease_expired(s.last().1, now) { 1nat } else { 0nat })
    }
}

/// The sessions left after removing each listed id in turn.
pub open spec fn remove_all(s: Seq<(SessionId, SessionMetaView)>, ids: Seq<SessionId>) -> Seq<(SessionId, SessionMetaView)>
    decreases ids.len(),
{
    if ids.len() == 0 {
        s
    } else {
        entries_remove(remove_all(s, ids.drop_last()), ids.last())
    }
}

/// The manager after dropping the records of closed sessions.
pub open spec fn purged(v: SessionManagerView) -> SessionManagerView {
    SessionManagerView {
        sessions: remove_all(v.sessions, v.closed_sessions),
        default_timeout_ms: v.default_timeout_ms,
        next_session_id: v.next_session_id,
        closed_sessions: Seq::empty(),
    }
}

/// The sessions by id, as values.
pub open spec fn sessions_view(e: Seq<(SessionId, SessionMeta)>) -> Seq<(SessionId, SessionMetaView)> {
    map_entries(e, |m: SessionMeta| m@)
}

proof fn lemma_sessions_view(e: Seq<(SessionId, SessionMeta)>, k: SessionId, m: SessionMeta)
    requires
        keys_unique(e),
    ensures
        keys_unique(sessions_view(e)),
        key_pos(sessions_view(e), k) == key_pos(e, k),
        lookup(sessions_view(e), k) == (match lookup(e, k) {
            Some(x) => Some(x@),
            None => None::<SessionMetaView>,
        }),
        sessions_view(entries_insert(e, k, m)) == entries_insert(sessions_view(e), k, m@),
        sessions_view(entries_remove(e, k)) == entries_remove(sessions_view(e), k),
{
    lemma_map_entries(e, |m: SessionMeta| m@, k, m);
}

/// A copy of a list of strings.
fn clone_strings(v: &Vec<String>) -> (r: Vec<String>)
    ensures
        strings_view(r) == strings_view(*v),
{
    let mut out: Vec<String> = Vec::new();
    let mut i: usize = 0;
    while i < v.len()
        invariant
            i <= v@.len(),
            out@.len() == i,
            forall|j: int| 0 <= j < i ==> (#[trigger] out@[j])@ == v@[j]@,
        decreases v@.len() - i,
    {
        let s = v[i].clone();
        out.push(s);
        i = i + 1;
    }
    assert(strings_view(out) =~= strings_view(*v));
    out
}

/// The sessions of the service.
#[derive(Debug)]
pub struct SessionManager {
    sessions: IdMap<SessionMeta>,
    default_timeout_ms: u64,
    next_session_id: SessionId,
    closed_sessions: Vec<SessionId>,
}

impl View for SessionManager {
    type V = SessionManagerView;

    closed spec fn view(&self) -> SessionManagerView {
        SessionManagerView {
            sessions: sessions_view(self.sessions@),
            default_timeout_ms: self.default_timeout_ms,
            next_session_id: self.next_session_id,
            closed_sessions: self.closed_sessions@,
        }
    }
}

/// A placeholder that stands in a slot while its session is worked on.
fn placeholder_meta() -> (r: SessionMeta)
    ensures
        r.id == 0,
        r.created_at == 0,
        r.lease_deadline == 0,
        r.timeout_ms == 0,
        r.state == SessionState::Closed,
        r.ephemeral_nodes@.len() == 0,
{
    SessionMeta {
        id: 0,
        created_at: 0,
        lease_deadline: 0,
        timeout_ms: 0,
        state: SessionState::Closed,
        ephemeral_nodes: Vec::new(),
    }
}

impl SessionManager {
    /// A manager without sessions whose leases last `default_timeout_ms`.
    pub fn new(default_timeout_ms: u64) -> (r: SessionManager)
        ensures
            r@.sessions == Seq::<(SessionId, SessionMetaView)>::empty(),
            r@.default_timeout_ms == default_timeout_ms,
            r@.next_session_id == 1,
            r@.closed_sessions == Seq::<SessionId>::empty(),
    {
        let r = SessionManager {
            sessions: IdMap::new(),
            default_timeout_ms,
            next_session_id: 1,
            closed_sessions: Vec::new(),
        };
        assert(r@.sessions =~= Seq::<(SessionId, SessionMetaView)>::empty());
        r
    }

    /// Creates an active session at `now` and gives its id; ids count up
    /// from 1.
    pub fn create_session(&mut self, now: u64) -> (r: SessionId)
        requires
            old(self)@.next_session_id < u64::MAX,
            now + old(self)@.default_timeout_ms <= u64::MAX,
        ensures
            r == old(self)@.next_session_id,
            final(self)@ == created(old(self)@, now),
    {
        proof {
            use_type_invariant(&self.sessions);
        }
        let id = self.next_session_id;
        let meta = SessionMeta {
            id,
            created_at: now,
            lease_deadline: now + self.default_timeout_ms,
            timeout_ms: self.default_timeout_ms,
            state: SessionState::Active,
            ephemeral_nodes: Vec::new(),
        };
        proof {
            lemma_sessions_view(self.sessions@, id, meta);
            assert(meta@ =~= fresh_session(id, now, self.default_timeout_ms));
        }
        self.sessions.insert(id, meta);
        self.next_session_id = id + 1;
        id
    }

    /// Renews the lease of `session_id` at `now` (see `heartbeat_outcome`).
    pub fn heartbeat(&mut self, session_id: SessionId, now: u64) -> (r: Result<(), ErrorCode>)
        requires
            heartbeat_renews(old(self)@, session_id, now)
                ==> now + lookup(old(self)@.sessions, session_id)->0.timeout_ms <= u64::MAX,
        ensures
            (final(self)@, r) == heartbeat_outcome(old(self)@, session_id, now),
    {
        proof {
            use_type_invariant(&self.sessions);
            let m: SessionMeta = vstd::pervasive::arbitrary();
            lemma_sessions_view(self.sessions@, session_id, m);
            lemma_key_pos(self.sessions@, session_id);
        }
        match self.sessions.find(session_id) {
            None => Err(ErrorCode::SessionNotFound),
            Some(i) => {
                let state = self.sessions.value_at(i).state;
                if state != SessionState::Active {
                    return Err(ErrorCode::SessionExpired);
                }
                let expired = self.sessions.value_at(i).is_expired(now);
                let mut meta = self.sessions.replace_value_at(i, placeholder_meta());
                let ghost before = meta@;
                let result = if expired {
                    meta.state = SessionState::Expired;
                    assert(meta@ =~= with_state(before, SessionState::Expired));
                    Err(ErrorCode::SessionExpired)
                } else {
                    meta.renew(now);
                    Ok(())
                };
                let ghost m2 = meta;
                proof { lemma_sessions_view(old(self).sessions@, session_id, m2); }
                self.sessions.set_value_at(i, meta);
                assert(self.sessions@ =~= entries_insert(old(self).sessions@, session_id, m2));
                result
            },
        }
    }

    /// Records an ephemeral node of `session_id`; nothing happens for an
    /// unknown session.
    pub fn register_ephemeral_node(&mut self, session_id: SessionId, node_path: &str)
        ensures
            final(self)@ == (match lookup(old(self)@.sessions, session_id) {
                Some(s) => with_sessions(old(self)@, entries_insert(old(self)@.sessions, session_id, with_ephemeral(s, node_path@))),
                None => old(self)@,
            }),
    {
        proof {
            use_type_invariant(&self.sessions);
            let m: SessionMeta = vstd::pervasive::arbitrary();
            lemma_sessions_view(self.sessions@, session_id, m);
            lemma_key_pos(self.sessions@, session_id);
        }
        match self.sessions.find(session_id) {
            None => {},
            Some(i) => {
                let mut meta = self.sessions.replace_value_at(i, placeholder_meta());
                let ghost before = meta@;
                meta.ephemeral_nodes.push(owned(node_path));
                assert(meta@ =~= with_ephemeral(before, node_path@));
                let ghost m2 = meta;
                proof { lemma_sessions_view(old(self).sessions@, session_id, m2); }
                self.sessions.set_value_at(i, meta);
                assert(self.sessions@ =~= entries_insert(old(self).sessions@, session_id, m2));
            },
        }
    }

    /// The ephemeral nodes of `session_id`; none for an unknown session.
    pub fn get_session_ephemerals(&self, session_id: SessionId) -> (r: Vec<String>)
        ensures
            strings_view(r) == (match lookup(self@.sessions, session_id) {
                Some(s) => s.ephemeral_nodes,
                None => Seq::<Seq<char>>::empty(),
            }),
    {
        proof {
            use_type_invariant(&self.sessions);
            let m: SessionMeta = vstd::pervasive::arbitrary();
            lemma_sessions_view(self.sessions@, session_id, m);
        }
        match self.sessions.get(session_id) {
            Some(meta) => clone_strings(&meta.ephemeral_nodes),
            None => {
                let r: Vec<String> = Vec::new();
                assert(strings_view(r) =~= Seq::<Seq<char>>::empty());
                r
            },
        }
    }

    /// Closes `session_id` and gives its ephemeral nodes, for the caller
    /// to delete (see `close_outcome`).
    pub fn close_session(&mut self, session_id: SessionId) -> (r: Result<Vec<String>, ErrorCode>)
        ensures
            final(self)@ == close_outcome(old(self)@, session_id).0,
            match (r, close_outcome(old(self)@, session_id).1) {
                (Ok(nodes), Ok(expected)) => strings_view(nodes) == expected,
                (Err(e), Err(expected)) => e == expected,
                _ => false,
            },
    {
        proof {
            use_type_invariant(&self.sessions);
            let m: SessionMeta = vstd::pervasive::arbitrary();
            lemma_sessions_view(self.sessions@, session_id, m);
            lemma_key_pos(self.sessions@, session_id);
        }
        match self.sessions.find(session_id) {
            None => Err(ErrorCode::SessionNotFound),
            Some(i) => {
                if self.sessions.value_at(i).state == SessionState::Closed {
                    return Err(ErrorCode::SessionNotFound);
                }
                let mut meta = self.sessions.replace_value_at(i, placeholder_meta());
                let ghost before = meta@;
                meta.state = SessionState::Closed;
                assert(meta@ =~= with_state(before, SessionState::Closed));
                let nodes = clone_strings(&meta.ephemeral_nodes);
                let ghost m2 = meta;
                proof { lemma_sessions_view(old(self).sessions@, session_id, m2); }
                self.sessions.set_value_at(i, meta);
                assert(self.sessions@ =~= entries_insert(old(self).sessions@, session_id, m2));
                self.closed_sessions.push(session_id);
                Ok(nodes)
            },
        }
    }

    /// Whether `session_id` is alive at `now`.
    pub fn is_alive(&self, session_id: SessionId, now: u64) -> (r: bool)
        ensures
            r == session_alive(self@, session_id, now),
    {
        proof {
            use_type_invariant(&self.sessions);
            let m: SessionMeta = vstd::pervasive::arbitrary();
            lemma_sessions_view(self.sessions@, session_id, m);
        }
        match self.sessions.get(session_id) {
            Some(meta) => meta.state == SessionState::Active && !meta.is_expired(now),
            None => false,
        }
    }

    /// Marks every active session whose lease ran out at `now` as expired,
    /// and gives those sessions with their ephemeral nodes.
    pub fn collect_expired_sessions(&mut self, now: u64) -> (r: HashMap<SessionId, Vec<String>>)
        ensures
            final(self)@ == with_sessions(old(self)@, expire_all(old(self)@.sessions, now)),
            forall|k: SessionId| r@.contains_key(k)
                <==> (lookup(old(self)@.sessions, k) matches Some(s) && newly_expired(s, now)),
            forall|k: SessionId| #[trigger] r@.contains_key(k)
                ==> strings_view(r@[k]) == lookup(old(self)@.sessions, k)->0.ephemeral_nodes,
    {
        proof {
            use_type_invariant(&self.sessions);
        }
        let ghost start = self.sessions@;
        let ghost sv = sessions_view(start);
        let mut expired: HashMap<SessionId, Vec<String>> = HashMap::new();
        let mut i: usize = 0;
        while i < self.sessions.len()
            invariant
                i <= start.len(),
                self.sessions@.len() == start.len(),
                keys_unique(start),
                sv == sessions_view(start),
                self.next_session_id == old(self).next_session_id,
                self.default_timeout_ms == old(self).default_timeout_ms,
                self.closed_sessions@ == old(self).closed_sessions@,
                start == old(self).sessions@,
                forall|k: int| 0 <= k < start.len() ==> (#[trigger] self.sessions@[k]).0 == start[k].0,
                forall|k: int| 0 <= k < i ==> (#[trigger] self.sessions@[k]).1@ == expire_entry(sv[k], now).1,
                forall|k: int| i <= k < start.len() ==> (#[trigger] self.sessions@[k]).1 == start[k].1,
                forall|k: SessionId| expired@.contains_key(k)
                    <==> exists|j: int| 0 <= j < i && (#[trigger] start[j]).0 == k && newly_expired(sv[j].1, now),
                forall|k: SessionId| #[trigger] expired@.contains_key(k)
                    ==> exists|j: int| 0 <= j < i && (#[trigger] start[j]).0 == k && strings_view(expired@[k]) == sv[j].1.ephemeral_nodes,
            decreases start.len() - i,
        {
            assert(sv[i as int] == (start[i as int].0, start[i as int].1@));
            let id = self.sessions.key_at(i);
            let meta_ref = self.sessions.value_at(i);
            if meta_ref.state == SessionState::Active && meta_ref.is_expired(now) {
                let nodes = clone_strings(&meta_ref.ephemeral_nodes);
                let mut meta = self.sessions.replace_value_at(i, placeholder_meta());
                let ghost before = meta@;
                meta.state = SessionState::Expired;
                assert(meta@ =~= with_state(before, SessionState::Expired));
                self.sessions.set_value_at(i, meta);
                expired.insert(id, nodes);
            }
            i = i + 1;
        }
        proof {
            assert(sessions_view(self.sessions@) =~= expire_all(sv, now)) by {
                assert forall|k: int| 0 <= k < start.len() implies sessions_view(self.sessions@)[k] == #[trigger] expire_all(sv, now)[k] by {
                    assert(self.sessions@[k].1@ == expire_entry(sv[k], now).1);
                }
            }
            assert forall|k: SessionId| expired@.contains_key(k)
                <==> (lookup(sv, k) matches Some(s) && newly_expired(s, now)) by {
                let m: SessionMeta = vstd::pervasive::arbitrary();
                lemma_sessions_view(start, k, m);
                lemma_key_pos(start, k);
                if expired@.contains_key(k) {
                    let j = choose|j: int| 0 <= j < start.len() && (#[trigger] start[j]).0 == k && newly_expired(sv[j].1, now);
                }
            }
            assert forall|k: SessionId| #[trigger] expired@.contains_key(k)
                implies strings_view(expired@[k]) == lookup(sv, k)->0.ephemeral_nodes by {
                let m: SessionMeta = vstd::pervasive::arbitrary();
                lemma_sessions_view(start, k, m);
                lemma_key_pos(start, k);
                let j = choose|j: int| 0 <= j < start.len() && (#[trigger] start[j]).0 == k && strings_view(expired@[k]) == sv[j].1.ephemeral_nodes;
            }
        }
        expired
    }

    /// The number of sessions alive at `now`.
    pub fn active_session_count(&self, now: u64) -> (r: usize)
        ensures
            r == count_alive(self@.sessions, now),
    {
        let ghost sv = self@.sessions;
        let mut count: usize = 0;
        let mut i: usize = 0;
        while i < self.sessions.len()
            invariant
                i <= sv.len(),
                sv == self@.sessions,
                sv.len() == self.sessions@.len(),
                count == count_alive(sv.take(i as int), now),
                count <= i,
            decreases sv.len() - i,
        {
            assert(sv.take(i + 1).drop_last() =~= sv.take(i as int));
            assert(sv[i as int].1 == self.sessions@[i as int].1@);
            let meta = self.sessions.value_at(i);
            if meta.state == SessionState::Active && !meta.is_expired(now) {
                count = count + 1;
            }
            i = i + 1;
        }
        assert(sv.take(sv.len() as int) =~= sv);
        count
    }

    /// Each session with its state, in creation order.
    pub fn session_summary(&self) -> (r: Vec<(SessionId, SessionState)>)
        ensures
            r@ == self@.sessions.map_values(|e: (SessionId, SessionMetaView)| (e.0, e.1.state)),
    {
        let ghost sv = self@.sessions;
        let mut out: Vec<(SessionId, SessionState)> = Vec::new();
        let mut i: usize = 0;
        while i < self.sessions.len()
            invariant
                i <= sv.len(),
                sv == self@.sessions,
                sv.len() == self.sessions@.len(),
                out@ == sv.take(i as int).map_values(|e: (SessionId, SessionMetaView)| (e.0, e.1.state)),
            decreases sv.len() - i,
        {
            assert(sv[i as int] == (self.sessions@[i as int].0, self.sessions@[i as int].1@));
            out.push((self.sessions.key_at(i), self.sessions.value_at(i).state));
            assert(out@ =~= sv.take(i + 1).map_values(|e: (SessionId, SessionMetaView)| (e.0, e.1.state)));
            i = i + 1;
        }
        assert(sv.take(sv.len() as int) =~= sv);
        out
    }

    /// Drops the records of the sessions closed since the last purge.
    pub fn purge_closed_sessions(&mut self)
        ensures
            final(self)@ == purged(old(self)@),
    {
        let ghost ids = self.closed_sessions@;
        let mut i: usize = 0;
        while i < self.closed_sessions.len()
            invariant
                i <= ids.len(),
                ids == self.closed_sessions@,
                ids == old(self).closed_sessions@,
                self.next_session_id == old(self).next_session_id,
                self.default_timeout_ms == old(self).default_timeout_ms,
                sessions_view(self.sessions@) == remove_all(sessions_view(old(self).sessions@), ids.take(i as int)),
            decreases ids.len() - i,
        {
            let id = self.closed_sessions[i];
            let ghost before = self.sessions@;
            proof {
                use_type_invariant(&self.sessions);
                let m: SessionMeta = vstd::pervasive::arbitrary();
                lemma_sessions_view(before, id, m);
                assert(ids.take(i + 1).drop_last() =~= ids.take(i as int));
            }
            let _ = self.sessions.remove(id);
            i = i + 1;
        }
        assert(ids.take(ids.len() as int) =~= ids);
        self.closed_sessions.clear();
    }
}

/// A session created at `now` is alive until its lease runs out.
pub proof fn lemma_created_session_alive(v: SessionManagerView, now: u64, later: u64)
    requires
        now + v.default_timeout_ms <= u64::MAX,
        now <= later <= now + v.default_timeout_ms,
    ensures
        session_alive(created(v, now), v.next_session_id, later),
{
    lemma_lookup_insert(v.sessions, v.next_session_id, fresh_session(v.next_session_id, now, v.default_timeout_ms));
}

/// After a successful heartbeat at `now`, the session is alive until the
/// renewed lease runs out.
pub proof fn lemma_heartbeat_keeps_alive(v: SessionManagerView, sid: SessionId, now: u64, later: u64)
    requires
        heartbeat_renews(v, sid, now) ==> now + lookup(v.sessions, sid)->0.timeout_ms <= u64::MAX,
        heartbeat_outcome(v, sid, now).1 is Ok,
        now <= later <= now + lookup(v.sessions, sid)->0.timeout_ms,
    ensures
        session_alive(heartbeat_outcome(v, sid, now).0, sid, later),
{
    let s = lookup(v.sessions, sid)->0;
    lemma_lookup_insert(v.sessions, sid, renewed(s, now));
}

/// A closed session is no longer alive, and closing it again is refused
/// as not found.
pub proof fn lemma_close_is_final(v: SessionManagerView, sid: SessionId, now: u64)
    requires
        close_outcome(v, sid).1 is Ok,
    ensures
        !session_alive(close_outcome(v, sid).0, sid, now),
        close_outcome(close_outcome(v, sid).0, sid).1 == Err::<Seq<Seq<char>>, ErrorCode>(ErrorCode::SessionNotFound),
{
    let s = lookup(v.sessions, sid)->0;
    lemma_lookup_insert(v.sessions, sid, with_state(s, SessionState::Closed));
}

/// After collecting at `now`, no session is active with a lease that ran
/// out at `now`.
pub proof fn lemma_collect_leaves_no_lapsed_session(v: SessionManagerView, now: u64, k: int)
    requires
        0 <= k < v.sessions.len(),
    ensures
        !newly_expired(expire_all(v.sessions, now)[k].1, now),
{
}

} // verus!
