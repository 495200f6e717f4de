//! Watch subscriptions: which sessions follow which paths, and the channel
//! on which node events are published.
//!
//! A subscription names either one exact path or a glob pattern. A
//! recursive watch on a path becomes the glob `<path>/**`, which follows
//! the path and everything under it.
use vstd::prelude::*;

use crate::idmap::IdMap;
use crate::model::{NodePath, SessionId};
use crate::strmap::{entries_insert, entries_remove, has_key, key_pos, keys_unique, lookup, map_entries, lemma_map_entries, lemma_key_pos, lemma_insert_unique, lemma_remove_unique};
use crate::text::{chars_of, chars_equal, contains_char, push_char, push_chars, skip_chars, starts_with_chars, str_equal, take_chars, trim_end_slashes, trim_trailing_slashes};
use crate::tree_kv::TreeKvEvent;

verus! {

/// The pattern `**`, which matches every path.
pub open spec fn double_star() -> Seq<char> {
    seq!['*', '*']
}

/// The suffix `/**` of a multi-level pattern.
pub open spec fn slash_double_star() -> Seq<char> {
    seq!['/', '*', '*']
}

/// The suffix `/*` of a single-level pattern.
pub open spec fn slash_star() -> Seq<char> {
    seq!['/', '*']
}

/// Whether `s` ends with `suffix`.
pub open spec fn ends_with(s: Seq<char>, suffix: Seq<char>) -> bool {
    suffix.len() <= s.len() && s.skip(s.len() - suffix.len()) == suffix
}

/// Glob matching of a path against a pattern, where a pattern `<P>/**`
/// or `<P>/*` is read as the directory `<P>`:
/// - `**` matches everything;
/// - `<P>/**` matches `<P>` and every path below it (`<P>/...`);
/// - `<P>/*` matches `<P>` and the paths one level below it (`<P>/x`
///   with no further `/`);
/// - any other pattern with a `*` matches nothing;
/// - a pattern without `*` matches exactly itself.
pub open spec fn glob_matches(pattern: Seq<char>, path: Seq<char>) -> bool {
    if pattern == double_star() {
        true
    } else if ends_with(pattern, slash_double_star()) {
        path == pattern.take(pattern.len() - 3) || pattern.take(pattern.len() - 2).is_prefix_of(path)
    } else if ends_with(pattern, slash_star()) {
        let dir = pattern.take(pattern.len() - 1);
        path == pattern.take(pattern.len() - 2) || (dir.is_prefix_of(path) && !path.skip(dir.len() as int).contains('/'))
    } else if pattern.contains('*') {
        false
    } else {
        path == pattern
    }
}

/// A path pattern as a value: an exact path or a glob.
pub enum PatternView {
    Exact(Seq<char>),
    Glob(Seq<char>),
}

/// Whether a path matches a pattern.
pub open spec fn pattern_matches(p: PatternView, path: Seq<char>) -> bool {
    match p {
        PatternView::Exact(e) => e == path,
        PatternView::Glob(g) => glob_matches(g, path),
    }
}

/// The glob that a recursive watch on `path` registers: the path without
/// trailing slashes, followed by `/**`.
pub open spec fn recursive_glob(path: Seq<char>) -> Seq<char> {
    trim_trailing_slashes(path) + slash_double_star()
}

/// The pattern that a watch on `path` registers.
pub open spec fn watch_pattern(path: Seq<char>, recursive: bool) -> PatternView {
    if recursive {
        PatternView::Glob(recursive_glob(path))
    } else {
        PatternView::Exact(path)
    }
}

/// A path pattern.
#[derive(Debug, Clone)]
pub enum PathPattern {
    /// One exact path.
    Exact(NodePath),
    /// A glob such as `/parent/*` or `/a/b/**`.
    Glob(String),
}

impl View for PathPattern {
    type V = PatternView;

    open spec fn view(&self) -> PatternView {
        match self {
            PathPattern::Exact(p) => PatternView::Exact(p@),
            PathPattern::Glob(g) => PatternView::Glob(g@),
        }
    }
}

/// Whether the characters `p` end with `/**`.
fn ends_with_slash_double_star(p: &Vec<char>) -> (r: bool)
    ensures
        r == ends_with(p@, slash_double_star()),
{
    let n = p.len();
    if n >= 3 && p[n - 3] == '/' && p[n - 2] == '*' && p[n - 1] == '*' {
        assert(p@.skip(n - 3) =~= slash_double_star());
        true
    } else {
        proof {
            if n >= 3 && p@.skip(n - 3) == slash_double_star() {
                assert(p@.skip(n - 3)[0] == p@[n - 3]);
                assert(p@.skip(n - 3)[1] == p@[n - 2]);
                assert(p@.skip(n - 3)[2] == p@[n - 1]);
            }
        }
        false
    }
}

/// Whether the characters `p` end with `/*`.
fn ends_with_slash_star(p: &Vec<char>) -> (r: bool)
    ensures
        r == ends_with(p@, slash_star()),
{
    let n = p.len();
    if n >= 2 && p[n - 2] == '/' && p[n - 1] == '*' {
        assert(p@.skip(n - 2) =~= slash_star());
        true
    } else {
        proof {
            if n >= 2 && p@.skip(n - 2) == slash_star() {
                assert(p@.skip(n - 2)[0] == p@[n - 2]);
                assert(p@.skip(n - 2)[1] == p@[n - 1]);
            }
        }
        false
    }
}

impl PathPattern {
    /// Whether `path` matches this pattern.
    pub fn matches(&self, path: &NodePath) -> (r: bool)
        ensures
            r == pattern_matches(self@, path@),
    {
        match self {
            PathPattern::Exact(p) => str_equal(p.as_str(), path.as_str()),
            PathPattern::Glob(pattern) => Self::glob_match(pattern.as_str(), path.as_str()),
        }
    }

    /// Glob matching of `path` against `pattern` (see `glob_matches`).
    pub fn glob_match(pattern: &str, path: &str) -> (r: bool)
        ensures
            r == glob_matches(pattern@, path@),
    {
        let p = chars_of(pattern);
        let s = chars_of(path);
        let n = p.len();
        if n == 2 && p[0] == '*' && p[1] == '*' {
            assert(p@ =~= double_star());
            return true;
        }
        assert(p@ != double_star()) by {
            if p@ == double_star() {
                assert(p@[0] == '*' && p@[1] == '*');
            }
        }
        if ends_with_slash_double_star(&p) {
            let dir_name = take_chars(&p, n - 3);
            if chars_equal(&s, &dir_name) {
                return true;
            }
            let dir = take_chars(&p, n - 2);
            return starts_with_chars(&s, &dir);
        }
        if ends_with_slash_star(&p) {
            let dir_name = take_chars(&p, n - 2);
            if chars_equal(&s, &dir_name) {
                return true;
            }
            let dir = take_chars(&p, n - 1);
            if starts_with_chars(&s, &dir) {
                let rest = skip_chars(&s, dir.len());
                return !contains_char(&rest, '/');
            }
            return false;
        }
        if contains_char(&p, '*') {
            return false;
        }
        chars_equal(&s, &p)
    }
}

/// The kind of change a watch event reports.
#[derive(Debug, Clone, Copy, PartialEq, Eq, Structural)]
pub enum WatchEventKind {
    NodeCreated,
    NodeUpdated,
    NodeDeleted,
    ChildrenChanged,
}

/// A change on a path, addressed to a session.
#[derive(Debug)]
pub struct WatchEvent {
    pub kind: WatchEventKind,
    pub path: NodePath,
    pub session_id: SessionId,
}

impl WatchEvent {
    /// The watch event for a tree event: creations, updates and deletions
    /// are reported, expirations are not.
    pub fn from_tree_kv_event(event: &TreeKvEvent, session_id: SessionId) -> (r: Option<WatchEvent>)
        ensures
            match *event {
                TreeKvEvent::NodeCreated(p) => r matches Some(e)
                    && e.kind == WatchEventKind::NodeCreated && e.path@ == p@ && e.session_id == session_id,
                TreeKvEvent::NodeUpdated(p) => r matches Some(e)
                    && e.kind == WatchEventKind::NodeUpdated && e.path@ == p@ && e.session_id == session_id,
                TreeKvEvent::NodeDeleted(p) => r matches Some(e)
                    && e.kind == WatchEventKind::NodeDeleted && e.path@ == p@ && e.session_id == session_id,
                TreeKvEvent::NodeExpired(_) => r is None,
            },
    {
        match event {
            TreeKvEvent::NodeCreated(path) => Some(WatchEvent {
                kind: WatchEventKind::NodeCreated,
                path: path.clone(),
                session_id,
            }),
            TreeKvEvent::NodeUpdated(path) => Some(WatchEvent {
                kind: WatchEventKind::NodeUpdated,
                path: path.clone(),
                session_id,
            }),
            TreeKvEvent::NodeDeleted(path) => Some(WatchEvent {
                kind: WatchEventKind::NodeDeleted,
                path: path.clone(),
                session_id,
            }),
            TreeKvEvent::NodeExpired(_) => None,
        }
    }
}

/// A watch event as a value.
pub struct WatchEventView {
    pub kind: WatchEventKind,
    pub path: Seq<char>,
    pub session_id: SessionId,
}

impl View for WatchEvent {
    type V = WatchEventView;

    open spec fn view(&self) -> WatchEventView {
        WatchEventView { kind: self.kind, path: self.path@, session_id: self.session_id }
    }
}

impl Clone for WatchEvent {
    fn clone(&self) -> (r: WatchEvent)
        ensures
            r@ == self@,
    {
        WatchEvent { kind: self.kind, path: self.path.clone(), session_id: self.session_id }
    }
}

/// The watch event kind that reports a tree event; expirations are not
/// reported.
pub open spec fn watch_kind_of(e: TreeKvEvent) -> Option<WatchEventKind> {
    match e {
        TreeKvEvent::NodeCreated(_) => Some(WatchEventKind::NodeCreated),
        TreeKvEvent::NodeUpdated(_) => Some(WatchEventKind::NodeUpdated),
        TreeKvEvent::NodeDeleted(_) => Some(WatchEventKind::NodeDeleted),
        TreeKvEvent::NodeExpired(_) => None,
    }
}

/// The path a tree event is about.
pub open spec fn tree_event_path(e: TreeKvEvent) -> Seq<char> {
    match e {
        TreeKvEvent::NodeCreated(p) => p@,
        TreeKvEvent::NodeUpdated(p) => p@,
        TreeKvEvent::NodeDeleted(p) => p@,
        TreeKvEvent::NodeExpired(p) => p@,
    }
}

/// The events of a change of kind `kind` on `path`, one per session, in
/// the order of `sessions`.
pub open spec fn change_events(kind: WatchEventKind, path: Seq<char>, sessions: Seq<SessionId>) -> Seq<WatchEventView>
    decreases sessions.len(),
{
    if sessions.len() == 0 {
        Seq::empty()
    } else {
        change_events(kind, path, sessions.drop_last())
            .push(WatchEventView { kind, path, session_id: sessions.last() })
    }
}

/// The events that notifying `sessions` of a tree event publishes: one per
/// session, none for an expiration.
pub open spec fn notifications(e: TreeKvEvent, sessions: Seq<SessionId>) -> Seq<WatchEventView> {
    match watch_kind_of(e) {
        Some(k) => change_events(k, tree_event_path(e), sessions),
        None => Seq::empty(),
    }
}

/// The events of `evs` whose flag in `keep` is set, in order.
pub open spec fn kept_events(evs: Seq<WatchEventView>, keep: Seq<bool>) -> Seq<WatchEventView>
    decreases evs.len(),
{
    if evs.len() == 0 || keep.len() == 0 {
        Seq::empty()
    } else {
        let rest = kept_events(evs.drop_last(), keep.drop_last());
        if keep.last() { rest.push(evs.last()) } else { rest }
    }
}

/// `after` is `before` followed by some of `evs`, in their order: each was
/// accepted by the channel or, with no receiver subscribed, dropped.
pub open spec fn published_some(before: Seq<WatchEventView>, after: Seq<WatchEventView>, evs: Seq<WatchEventView>) -> bool {
    exists|keep: Seq<bool>| #![trigger kept_events(evs, keep)]
        keep.len() == evs.len() && after == before + kept_events(evs, keep)
}

/// Publishing no events leaves the accepted events as they are.
pub proof fn lemma_nothing_published(log: Seq<WatchEventView>)
    ensures
        published_some(log, log, Seq::empty()),
{
    let keep = Seq::<bool>::empty();
    assert(log + kept_events(Seq::empty(), keep) =~= log);
}

/// One subscription of a session.
#[derive(Debug, Clone)]
pub struct Subscription {
    pub pattern: PathPattern,
    pub recursive: bool,
}

impl View for Subscription {
    type V = (PatternView, bool);

    open spec fn view(&self) -> (PatternView, bool) {
        (self.pattern@, self.recursive)
    }
}

/// The subscriptions of a list, as values.
pub open spec fn subs_view(v: Vec<Subscription>) -> Seq<(PatternView, bool)> {
    v@.map_values(|s: Subscription| s@)
}

/// The subscriptions of session `sid` (none if it has no entry).
pub open spec fn session_subs(w: Seq<(u64, Seq<(PatternView, bool)>)>, sid: u64) -> Seq<(PatternView, bool)> {
    match lookup(w, sid) {
        Some(s) => s,
        None => Seq::empty(),
    }
}

/// Whether some subscription of the list matches `path`.
pub open spec fn any_matches(subs: Seq<(PatternView, bool)>, path: Seq<char>) -> bool {
    exists|i: int| 0 <= i < subs.len() && pattern_matches(#[trigger] subs[i].0, path)
}

/// The sessions, in order, with a subscription that matches `path`.
pub open spec fn matching_sessions(w: Seq<(u64, Seq<(PatternView, bool)>)>, path: Seq<char>) -> Seq<u64>
    decreases w.len(),
{
    if w.len() == 0 {
        Seq::empty()
    } else if any_matches(w.last().1, path) {
        matching_sessions(w.drop_last(), path).push(w.last().0)
    } else {
        matching_sessions(w.drop_last(), path)
    }
}

/// The number of subscriptions over all sessions.
pub open spec fn total_subscriptions(w: Seq<(u64, Seq<(PatternView, bool)>)>) -> nat
    decreases w.len(),
{
    if w.len() == 0 {
        0
    } else {
        total_subscriptions(w.drop_last()) + w.last().1.len()
    }
}

proof fn lemma_total_prefix(w: Seq<(u64, Seq<(PatternView, bool)>)>, i: int)
    requires
        0 <= i <= w.len(),
    ensures
        total_subscriptions(w.take(i)) <= total_subscriptions(w),
    decreases w.len() - i,
{
    if i < w.len() {
        lemma_total_prefix(w, i + 1);
        assert(w.take(i + 1).drop_last() =~= w.take(i));
    } else {
        assert(w.take(i) =~= w);
    }
}

/// The subscriptions by session, as values.
pub open spec fn watch_view(e: Seq<(u64, Vec<Subscription>)>) -> Seq<(u64, Seq<(PatternView, bool)>)> {
    map_entries(e, |v: Vec<Subscription>| subs_view(v))
}

proof fn lemma_watch_view(e: Seq<(u64, Vec<Subscription>)>, k: u64, v: Vec<Subscription>)
    requires
        keys_unique(e),
    ensures
        keys_unique(watch_view(e)),
        key_pos(watch_view(e), k) == key_pos(e, k),
        lookup(watch_view(e), k) == (match lookup(e, k) {
            Some(x) => Some(subs_view(x)),
            None => None::<Seq<(PatternView, bool)>>,
        }),
        watch_view(entries_insert(e, k, v)) == entries_insert(watch_view(e), k, subs_view(v)),
        watch_view(entries_remove(e, k)) == entries_remove(watch_view(e), k),
{
    lemma_map_entries(e, |v: Vec<Subscription>| subs_view(v), k, v);
}

/// Trimming trailing slashes leaves a prefix of the text.
proof fn lemma_trim_is_prefix(s: Seq<char>)
    ensures
        trim_trailing_slashes(s).is_prefix_of(s),
        trim_trailing_slashes(s) == s || (trim_trailing_slashes(s) + seq!['/']).is_prefix_of(s),
    decreases s.len(),
{
    if s.len() > 0 && s.last() == '/' {
        let d = s.drop_last();
        lemma_trim_is_prefix(d);
        assert(d.is_prefix_of(s));
        let t = trim_trailing_slashes(d);
        if t == d {
            assert(t + seq!['/'] =~= s);
        } else {
            assert((t + seq!['/']).is_prefix_of(s)) by {
                assert forall|i: int| 0 <= i < (t + seq!['/']).len() implies (t + seq!['/'])[i] == s[i] by {
                    assert((t + seq!['/'])[i] == d[i]);
                }
            }
        }
    }
}

/// A session appears among the matching sessions exactly when one of its
/// entries has a matching subscription.
pub proof fn lemma_matching_sessions_contains(w: Seq<(u64, Seq<(PatternView, bool)>)>, path: Seq<char>, s: u64)
    ensures
        matching_sessions(w, path).contains(s)
            <==> exists|k: int| 0 <= k < w.len() && (#[trigger] w[k]).0 == s && any_matches(w[k].1, path),
    decreases w.len(),
{
    if w.len() > 0 {
        let d = w.drop_last();
        lemma_matching_sessions_contains(d, path, s);
        if matching_sessions(w, path).contains(s) {
            if !matching_sessions(d, path).contains(s) {
                assert(w[w.len() - 1] == w.last());
            } else {
                let k = choose|k: int| 0 <= k < d.len() && (#[trigger] d[k]).0 == s && any_matches(d[k].1, path);
                assert(w[k] == d[k]);
            }
        }
        if exists|k: int| 0 <= k < w.len() && (#[trigger] w[k]).0 == s && any_matches(w[k].1, path) {
            let k = choose|k: int| 0 <= k < w.len() && (#[trigger] w[k]).0 == s && any_matches(w[k].1, path);
            if k < w.len() - 1 {
                assert(d[k] == w[k]);
                let m = matching_sessions(d, path);
                if any_matches(w.last().1, path) {
                    let i = choose|i: int| 0 <= i < m.len() && m[i] == s;
                    assert(m.push(w.last().0)[i] == s);
                }
            } else {
                assert(matching_sessions(w, path) == matching_sessions(d, path).push(s));
                assert(matching_sessions(w, path)[matching_sessions(d, path).len() as int] == s);
            }
        }
    }
}

/// A watch on `path` follows `path` itself; a recursive watch also follows
/// every path below it: those that begin with `path` (without its
/// trailing slashes) followed by `/`.
pub proof fn lemma_watch_pattern_matches(path: Seq<char>, recursive: bool, other: Seq<char>)
    requires
        other == path || (recursive && (trim_trailing_slashes(path) + seq!['/']).is_prefix_of(other)),
    ensures
        pattern_matches(watch_pattern(path, recursive), other),
{
    if recursive {
        let g = recursive_glob(path);
        let t = trim_trailing_slashes(path);
        lemma_trim_is_prefix(path);
        assert(g.skip(g.len() - 3) =~= slash_double_star());
        assert(g.take(g.len() - 3) =~= t);
        assert(g.take(g.len() - 2) =~= t + seq!['/']);
        assert(g != double_star()) by {
            if g == double_star() {
                assert(g.len() == 2);
            }
        }
    }
}

/// Once a session registers a watch whose pattern matches a path, the
/// session is among those that follow the path.
pub proof fn lemma_registered_watch_matches(
    w: Seq<(u64, Seq<(PatternView, bool)>)>,
    sid: u64,
    path: Seq<char>,
    recursive: bool,
    other: Seq<char>,
)
    requires
        keys_unique(w),
        pattern_matches(watch_pattern(path, recursive), other),
    ensures
        matching_sessions(
            entries_insert(w, sid, session_subs(w, sid).push((watch_pattern(path, recursive), recursive))),
            other,
        ).contains(sid),
{
    let subs = session_subs(w, sid).push((watch_pattern(path, recursive), recursive));
    let after = entries_insert(w, sid, subs);
    lemma_insert_unique(w, sid, subs);
    lemma_key_pos(after, sid);
    let k = key_pos(after, sid);
    assert(after[k].1 == subs);
    assert(pattern_matches(subs[subs.len() - 1].0, other));
    assert(any_matches(after[k].1, other));
    lemma_matching_sessions_contains(after, other, sid);
}

/// No session appears twice among the sessions that follow a path.
pub proof fn lemma_matching_sessions_unique(w: Seq<(u64, Seq<(PatternView, bool)>)>, path: Seq<char>)
    requires
        keys_unique(w),
    ensures
        matching_sessions(w, path).no_duplicates(),
    decreases w.len(),
{
    if w.len() > 0 {
        let d = w.drop_last();
        assert(keys_unique(d)) by {
            assert forall|i: int, j: int| 0 <= i < d.len() && 0 <= j < d.len() && i != j implies (#[trigger] d[i]).0 != (#[trigger] d[j]).0 by {
                assert(d[i] == w[i] && d[j] == w[j]);
            }
        }
        lemma_matching_sessions_unique(d, path);
        if any_matches(w.last().1, path) {
            let m = matching_sessions(d, path);
            lemma_matching_sessions_contains(d, path, w.last().0);
            if m.contains(w.last().0) {
                let k = choose|k: int| 0 <= k < d.len() && (#[trigger] d[k]).0 == w.last().0 && any_matches(d[k].1, path);
                assert(w[k] == d[k]);
                assert(w[w.len() - 1] == w.last());
            }
            let r = m.push(w.last().0);
            assert forall|i: int, j: int| 0 <= i < r.len() && 0 <= j < r.len() && i != j implies r[i] != r[j] by {
                if i < m.len() && j < m.len() {
                } else if i == m.len() {
                    assert(m.contains(m[j]));
                } else {
                    assert(m.contains(m[i]));
                }
            }
        }
    }
}

/// Once a session's watches are removed, no path is followed by it.
pub proof fn lemma_unregistered_session_matches_nothing(
    w: Seq<(u64, Seq<(PatternView, bool)>)>,
    sid: u64,
    other: Seq<char>,
)
    requires
        keys_unique(w),
    ensures
        !matching_sessions(entries_remove(w, sid), other).contains(sid),
{
    let after = entries_remove(w, sid);
    lemma_remove_unique(w, sid);
    lemma_matching_sessions_contains(after, other, sid);
    if matching_sessions(after, other).contains(sid) {
        let k = choose|k: int| 0 <= k < after.len() && (#[trigger] after[k]).0 == sid && any_matches(after[k].1, other);
        assert(has_key(after, sid));
    }
}

/// The sending half of a `tokio` broadcast channel.
#[verifier::external_type_specification]
#[verifier::external_body]
#[verifier::reject_recursive_types(T)]
pub struct ExBroadcastSender<T>(tokio::sync::broadcast::Sender<T>);

/// The receiving half of a `tokio` broadcast channel.
#[verifier::external_type_specification]
#[verifier::external_body]
#[verifier::reject_recursive_types(T)]
pub struct ExBroadcastReceiver<T>(tokio::sync::broadcast::Receiver<T>);

/// The events a broadcast channel has accepted from this sending half,
/// oldest first.
pub uninterp spec fn broadcast_accepted(tx: tokio::sync::broadcast::Sender<WatchEvent>) -> Seq<WatchEventView>;

/// Opens a broadcast channel for watch events
/// (`tokio::sync::broadcast::channel`) and keeps its sending half; the
/// receiving half made with it is dropped, and nothing has been sent yet.
/// `tokio` panics on a capacity of zero or above half the address space.
#[verifier::external_body]
fn open_event_channel(capacity: usize) -> (r: tokio::sync::broadcast::Sender<WatchEvent>)
    requires
        0 < capacity <= usize::MAX / 2,
    ensures
        broadcast_accepted(r) == Seq::<WatchEventView>::empty(),
{
    let (tx, _rx) = tokio::sync::broadcast::channel(capacity);
    tx
}

/// Publishes an event (`Sender::send`). It fails when no receiver is
/// subscribed, and the event is then dropped; otherwise the channel
/// accepts the event and the call gives the number of subscribed
/// receivers, which is at least one. Which receivers exist is not known
/// here.
#[verifier::external_body]
fn publish_event(tx: &mut tokio::sync::broadcast::Sender<WatchEvent>, event: WatchEvent) -> (r: Option<usize>)
    ensures
        r matches Some(n) ==> n >= 1,
        r is Some ==> broadcast_accepted(*final(tx)) == broadcast_accepted(*old(tx)).push(event@),
        r is None ==> broadcast_accepted(*final(tx)) == broadcast_accepted(*old(tx)),
{
    match tx.send(event) {
        Ok(n) => Some(n),
        Err(_) => None,
    }
}

/// A new receiver of the events published after this call
/// (`Sender::subscribe`); the events accepted so far stay as they are.
/// `tokio` panics when `usize::MAX >> 2` receivers exist at once; how many
/// exist is not tracked here.
#[verifier::external_body]
fn subscribe_events(tx: &tokio::sync::broadcast::Sender<WatchEvent>) -> tokio::sync::broadcast::Receiver<WatchEvent> {
    tx.subscribe()
}

/// The capacity of the event channel.
pub const EVENT_CHANNEL_CAPACITY: usize = 1024;

/// All subscriptions, by session, the channel that carries events, and
/// the events handed to that channel so far.
pub struct WatchManager {
    subscriptions: IdMap<Vec<Subscription>>,
    event_tx: tokio::sync::broadcast::Sender<WatchEvent>,
    offered: Ghost<Seq<WatchEventView>>,
}

impl View for WatchManager {
    type V = Seq<(u64, Seq<(PatternView, bool)>)>;

    /// Each session in registration order, with its subscriptions in the
    /// order they were made.
    closed spec fn view(&self) -> Seq<(u64, Seq<(PatternView, bool)>)> {
        watch_view(self.subscriptions@)
    }
}

impl WatchManager {
    /// The events the channel has accepted so far, oldest first.
    pub closed spec fn sent(&self) -> Seq<WatchEventView> {
        broadcast_accepted(self.event_tx)
    }

    /// The events handed to the channel so far, oldest first, whether the
    /// channel accepted them or not.
    pub closed spec fn offered(&self) -> Seq<WatchEventView> {
        self.offered@
    }
}

impl Default for WatchManager {
    fn default() -> (r: WatchManager)
        ensures
            r@ == Seq::<(u64, Seq<(PatternView, bool)>)>::empty(),
            r.sent() == Seq::<WatchEventView>::empty(),
            r.offered() == Seq::<WatchEventView>::empty(),
    {
        WatchManager::new()
    }
}

impl WatchManager {
    /// A manager with no subscriptions.
    pub fn new() -> (r: WatchManager)
        ensures
            r@ == Seq::<(u64, Seq<(PatternView, bool)>)>::empty(),
            r.sent() == Seq::<WatchEventView>::empty(),
            r.offered() == Seq::<WatchEventView>::empty(),
    {
        let r = WatchManager {
            subscriptions: IdMap::new(),
            event_tx: open_event_channel(EVENT_CHANNEL_CAPACITY),
            offered: Ghost(Seq::empty()),
        };
        assert(r@ =~= Seq::<(u64, Seq<(PatternView, bool)>)>::empty());
        r
    }

    /// Registers a watch of `session_id` on `path`: an exact pattern, or
    /// for a recursive watch the glob `<path>/**`. Gives the subscription's
    /// index among the session's subscriptions.
    pub fn register_watch(&mut self, session_id: SessionId, path: NodePath, recursive: bool) -> (r: usize)
        ensures
            r == session_subs(old(self)@, session_id).len(),
            final(self).sent() == old(self).sent(),
            final(self).offered() == old(self).offered(),
            final(self)@ == entries_insert(
                old(self)@,
                session_id,
                session_subs(old(self)@, session_id).push((watch_pattern(path@, recursive), recursive)),
            ),
    {
        let ghost p = path@;
        let pattern = if recursive {
            let cs = chars_of(path.as_str());
            let trimmed = trim_end_slashes(&cs);
            let mut g = String::new();
            push_chars(&mut g, &trimmed);
            push_char(&mut g, '/');
            push_char(&mut g, '*');
            push_char(&mut g, '*');
            assert(g@ =~= recursive_glob(p));
            PathPattern::Glob(g)
        } else {
            PathPattern::Exact(path)
        };
        let sub = Subscription { pattern, recursive };
        assert(sub@ == (watch_pattern(p, recursive), recursive));
        proof {
            use_type_invariant(&self.subscriptions);
            lemma_key_pos(self.subscriptions@, session_id);
        }
        match self.subscriptions.find(session_id) {
            Some(i) => {
                let mut subs = self.subscriptions.replace_value_at(i, Vec::new());
                let id = subs.len();
                subs.push(sub);
                let ghost new_subs = subs;
                proof {
                    lemma_watch_view(old(self).subscriptions@, session_id, new_subs);
                    assert(subs_view(new_subs) =~= subs_view(old(self).subscriptions@[i as int].1).push(sub@));
                }
                self.subscriptions.set_value_at(i, subs);
                assert(self.subscriptions@ =~= entries_insert(old(self).subscriptions@, session_id, new_subs));
                id
            },
            None => {
                let mut subs: Vec<Subscription> = Vec::new();
                subs.push(sub);
                proof {
                    lemma_watch_view(old(self).subscriptions@, session_id, subs);
                    assert(subs_view(subs) =~= seq![sub@]);
                    assert(session_subs(old(self)@, session_id) =~= Seq::<(PatternView, bool)>::empty());
                }
                self.subscriptions.insert(session_id, subs);
                0
            },
        }
    }

    /// Removes subscription `subscription_id` of `session_id`; false when
    /// the session or the index does not exist. Later subscriptions of the
    /// session move down by one.
    pub fn unregister_watch(&mut self, session_id: SessionId, subscription_id: usize) -> (r: bool)
        ensures
            r == (has_key(old(self)@, session_id) && subscription_id < session_subs(old(self)@, session_id).len()),
            final(self).sent() == old(self).sent(),
            final(self).offered() == old(self).offered(),
            r ==> final(self)@ == entries_insert(
                old(self)@,
                session_id,
                session_subs(old(self)@, session_id).remove(subscription_id as int),
            ),
            !r ==> final(self)@ == old(self)@,
    {
        proof {
            use_type_invariant(&self.subscriptions);
            lemma_key_pos(self.subscriptions@, session_id);
            let v: Vec<Subscription> = vstd::pervasive::arbitrary();
            lemma_watch_view(self.subscriptions@, session_id, v);
            lemma_key_pos(self@, session_id);
        }
        match self.subscriptions.find(session_id) {
            Some(i) => {
                if subscription_id < self.subscriptions.value_at(i).len() {
                    let mut subs = self.subscriptions.replace_value_at(i, Vec::new());
                    subs.remove(subscription_id);
                    let ghost new_subs = subs;
                    proof {
                        lemma_watch_view(old(self).subscriptions@, session_id, new_subs);
                        assert(subs_view(new_subs) =~= subs_view(old(self).subscriptions@[i as int].1).remove(subscription_id as int));
                    }
                    self.subscriptions.set_value_at(i, subs);
                    assert(self.subscriptions@ =~= entries_insert(old(self).subscriptions@, session_id, new_subs));
                    true
                } else {
                    false
                }
            },
            None => false,
        }
    }

    /// Removes every subscription of `session_id`.
    pub fn unregister_session(&mut self, session_id: SessionId)
        ensures
            final(self)@ == entries_remove(old(self)@, session_id),
            final(self).sent() == old(self).sent(),
            final(self).offered() == old(self).offered(),
    {
        proof {
            use_type_invariant(&self.subscriptions);
            let v: Vec<Subscription> = vstd::pervasive::arbitrary();
            lemma_watch_view(self.subscriptions@, session_id, v);
        }
        let _ = self.subscriptions.remove(session_id);
    }

    /// The sessions, in order, with at least one subscription matching
    /// `path`; each session is tried until its first matching
    /// subscription.
    pub fn matching_subscriptions(&self, path: &NodePath) -> (r: Vec<SessionId>)
        ensures
            r@ == matching_sessions(self@, path@),
            r@.no_duplicates(),
            forall|sid: u64| r@.contains(sid) <==> exists|k: int| 0 <= k < self@.len()
                && (#[trigger] self@[k]).0 == sid && any_matches(self@[k].1, path@),
    {
        proof {
            assert forall|sid: u64| matching_sessions(self@, path@).contains(sid) <==> exists|k: int| 0 <= k < self@.len()
                && (#[trigger] self@[k]).0 == sid && any_matches(self@[k].1, path@) by {
                lemma_matching_sessions_contains(self@, path@, sid);
            }
            use_type_invariant(&self.subscriptions);
            let v: Vec<Subscription> = vstd::pervasive::arbitrary();
            lemma_watch_view(self.subscriptions@, 0, v);
            lemma_matching_sessions_unique(self@, path@);
        }
        let ghost w = self@;
        let mut sessions: Vec<SessionId> = Vec::new();
        let mut i: usize = 0;
        while i < self.subscriptions.len()
            invariant
                i <= w.len(),
                w == self@,
                w.len() == self.subscriptions@.len(),
                sessions@ == matching_sessions(w.take(i as int), path@),
            decreases w.len() - i,
        {
            let subs = self.subscriptions.value_at(i);
            let ghost sv = w[i as int].1;
            assert(sv == subs_view(*subs));
            let mut j: usize = 0;
            let mut found = false;
            while j < subs.len() && !found
                invariant
                    j <= subs@.len(),
                    sv == subs_view(*subs),
                    i < w.len(),
                    w[i as int].1 == sv,
                    found ==> any_matches(sv, path@),
                    !found ==> forall|jj: int| 0 <= jj < j ==> !pattern_matches(#[trigger] sv[jj].0, path@),
                decreases subs@.len() - j + (if found { 0int } else { 1int }),
            {
                assert(sv[j as int] == subs@[j as int]@);
                if subs[j].pattern.matches(path) {
                    assert(pattern_matches(sv[j as int].0, path@));
                    found = true;
                } else {
                    j = j + 1;
                }
            }
            assert(w.take(i + 1).drop_last() =~= w.take(i as int));
            if found {
                sessions.push(self.subscriptions.key_at(i));
            }
            i = i + 1;
        }
        assert(w.take(w.len() as int) =~= w);
        sessions
    }

    /// Publishes an event to the receivers subscribed to the channel: the
    /// event joins the log of offered events and is handed to the channel,
    /// which accepts it or, with no receiver subscribed, drops it.
    pub fn broadcast_event(&mut self, event: WatchEvent)
        ensures
            final(self)@ == old(self)@,
            final(self).offered() == old(self).offered().push(event@),
            final(self).sent() == old(self).sent().push(event@) || final(self).sent() == old(self).sent(),
    {
        proof {
            self.offered@ = self.offered@.push(event@);
        }
        let _ = publish_event(&mut self.event_tx, event);
    }

    /// Publishes `event` for every session that follows `path`, in the
    /// order of `matching_sessions` (see `notifications`); each event is
    /// accepted by the channel or, with no receiver subscribed, dropped.
    pub fn notify(&mut self, path: &NodePath, event: &TreeKvEvent)
        ensures
            final(self)@ == old(self)@,
            final(self).offered() == old(self).offered() + notifications(*event, matching_sessions(old(self)@, path@)),
            published_some(old(self).sent(), final(self).sent(), notifications(*event, matching_sessions(old(self)@, path@))),
    {
        let sessions = self.matching_subscriptions(path);
        let ghost w = self@;
        let ghost base = self.sent();
        let ghost obase = self.offered();
        let ghost mut keep: Seq<bool> = Seq::empty();
        let mut i: usize = 0;
        while i < sessions.len()
            invariant
                i <= sessions@.len(),
                self@ == w,
                sessions@ == matching_sessions(w, path@),
                keep.len() == notifications(*event, sessions@.take(i as int)).len(),
                self.sent() == base + kept_events(notifications(*event, sessions@.take(i as int)), keep),
                self.offered() == obase + notifications(*event, sessions@.take(i as int)),
            decreases sessions@.len() - i,
        {
            proof {
                assert(sessions@.take(i + 1).drop_last() =~= sessions@.take(i as int));
                assert(sessions@.take(i + 1).last() == sessions@[i as int]);
            }
            let ghost before = self.sent();
            match WatchEvent::from_tree_kv_event(event, sessions[i]) {
                Some(we) => {
                    let ghost v = we@;
                    self.broadcast_event(we);
                    proof {
                        let evs = notifications(*event, sessions@.take(i as int));
                        let evs1 = notifications(*event, sessions@.take(i + 1));
                        assert(evs1 == evs.push(v));
                        let b = self.sent() == before.push(v);
                        let keep1 = keep.push(b);
                        assert(evs1.drop_last() == evs && keep1.drop_last() =~= keep);
                        assert(self.sent() =~= base + kept_events(evs1, keep1));
                        assert(self.offered() =~= obase + evs1);
                        keep = keep1;
                    }
                },
                None => {
                    proof {
                        assert(notifications(*event, sessions@.take(i + 1)).len() == 0);
                        assert(notifications(*event, sessions@.take(i as int)).len() == 0);
                    }
                },
            }
            i = i + 1;
        }
        assert(sessions@.take(sessions@.len() as int) =~= sessions@);
    }

    /// A receiver of the events published from now on. The receiver is the
    /// channel's own, and no contract describes what it will receive.
    pub fn subscribe(&self) -> tokio::sync::broadcast::Receiver<WatchEvent> {
        subscribe_events(&self.event_tx)
    }

    /// The number of subscriptions over all sessions.
    pub fn subscription_count(&self) -> (r: usize)
        requires
            total_subscriptions(self@) <= usize::MAX,
        ensures
            r == total_subscriptions(self@),
    {
        let ghost w = self@;
        let mut total: usize = 0;
        let mut i: usize = 0;
        while i < self.subscriptions.len()
            invariant
                i <= w.len(),
                w == self@,
                w.len() == self.subscriptions@.len(),
                total_subscriptions(w) <= usize::MAX,
                total == total_subscriptions(w.take(i as int)),
            decreases w.len() - i,
        {
            assert(w.take(i + 1).drop_last() =~= w.take(i as int));
            proof { lemma_total_prefix(w, i + 1); }
            assert(w[i as int].1.len() == self.subscriptions@[i as int].1@.len());
            total = total + self.subscriptions.value_at(i).len();
            i = i + 1;
        }
        assert(w.take(w.len() as int) =~= w);
        total
    }

    /// The number of sessions with an entry.
    pub fn session_count(&self) -> (r: usize)
        ensures
            r == self@.len(),
    {
        self.subscriptions.len()
    }
}

} // verus!
