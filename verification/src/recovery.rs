//! Recovery: the stored recovery cursor and the replay of write-ahead log
//! entries onto the tree store. Files are read and written around this
//! module; the decisions on what they hold are made here.
use vstd::prelude::*;

use crate::acl::Permission;
use crate::layout::StorageLayout;
use crate::model::{CommandId, NodePath, has_parent_segment, normalize_path};
use crate::state::{RecoveryCursor, CURSOR_RECORD_LEN, cursor_checked_bytes, cursor_of_bytes};
use crate::strmap::lookup;
use crate::tree_kv::{TreeKv, TreeKvSnapshot, KvNodeView, create_outcome, delete_outcome, restored_entries, set_outcome, snapshot_node_entries};
use crate::layout::crc32_of;
use crate::wal::{OpType, WalEntry, WalEntryView};

verus! {

/// Errors of recovery.
#[derive(Debug)]
pub enum RecoveryError {
    /// Another instance holds the data directory's lock file.
    LockFailed,
    SnapshotFailed(String),
    WalReplayFailed(String),
    CursorCorrupted,
    IoError(std::io::Error),
}

impl From<std::io::Error> for RecoveryError {
    fn from(err: std::io::Error) -> (r: RecoveryError) {
        RecoveryError::IoError(err)
    }
}

impl vstd::std_specs::convert::FromSpecImpl<std::io::Error> for RecoveryError {
    open spec fn obeys_from_spec() -> bool {
        true
    }

    open spec fn from_spec(v: std::io::Error) -> RecoveryError {
        RecoveryError::IoError(v)
    }
}

/// The error that reading a fixed-length record from a shorter file gives
/// (`std::io::Error::new` with kind `UnexpectedEof` and the message that
/// `Read::read_exact` uses).
#[verifier::external_body]
fn short_record_error() -> std::io::Error {
    std::io::Error::new(std::io::ErrorKind::UnexpectedEof, "failed to fill whole buffer")
}

/// What creating the lock file came to: created, already there (another
/// instance holds the lock), or another I/O failure.
#[derive(Debug)]
pub enum LockFileOutcome {
    Created,
    AlreadyExists,
    Failed(std::io::Error),
}

/// The subject under which log entries act on the tree.
pub const SYSTEM_SUBJECT: &'static str = "system";

/// The tree after applying one log entry: an entry whose path is refused
/// is skipped; creates, sets (without version check) and deletes act as
/// the system subject, with an absent value read as empty; other kinds
/// of entry are skipped. Refusals leave what the operation leaves.
pub open spec fn apply_entry_outcome(
    e: Seq<(Seq<char>, KvNodeView)>,
    defaults: Seq<Permission>,
    cid: CommandId,
    entry: WalEntryView,
) -> (Seq<(Seq<char>, KvNodeView)>, CommandId) {
    if has_parent_segment(entry.path) {
        (e, cid)
    } else {
        let p = normalize_path(entry.path);
        let v = match entry.value {
            Some(v) => v,
            None => Seq::empty(),
        };
        match entry.op_type {
            OpType::Create => {
                let (e2, c2, _) = create_outcome(e, cid, p, v);
                (e2, c2)
            },
            OpType::SetValue => {
                let (e2, c2, _) = set_outcome(e, defaults, cid, p, v, None, SYSTEM_SUBJECT@);
                (e2, c2)
            },
            OpType::Delete => {
                let (e2, _) = delete_outcome(e, defaults, p, SYSTEM_SUBJECT@);
                (e2, cid)
            },
            _ => (e, cid),
        }
    }
}

/// Whether an entry can be applied: a create or set needs a command id
/// left, a set also a version left on an existing node.
pub open spec fn apply_entry_defined(e: Seq<(Seq<char>, KvNodeView)>, cid: CommandId, entry: WalEntryView) -> bool {
    !has_parent_segment(entry.path) ==> match entry.op_type {
        OpType::Create => cid < u64::MAX,
        OpType::SetValue => cid < u64::MAX
            && (lookup(e, normalize_path(entry.path)) matches Some(n) ==> n.metadata.version < u64::MAX),
        _ => true,
    }
}

/// The tree after applying entries in order.
pub open spec fn replay_outcome(
    e: Seq<(Seq<char>, KvNodeView)>,
    defaults: Seq<Permission>,
    cid: CommandId,
    entries: Seq<WalEntryView>,
) -> (Seq<(Seq<char>, KvNodeView)>, CommandId)
    decreases entries.len(),
{
    if entries.len() == 0 {
        (e, cid)
    } else {
        let (e1, c1) = replay_outcome(e, defaults, cid, entries.drop_last());
        apply_entry_outcome(e1, defaults, c1, entries.last())
    }
}

/// Whether every entry can be applied in turn.
pub open spec fn replay_defined(
    e: Seq<(Seq<char>, KvNodeView)>,
    defaults: Seq<Permission>,
    cid: CommandId,
    entries: Seq<WalEntryView>,
) -> bool
    decreases entries.len(),
{
    if entries.len() == 0 {
        true
    } else {
        let (e1, c1) = replay_outcome(e, defaults, cid, entries.drop_last());
        replay_defined(e, defaults, cid, entries.drop_last()) && apply_entry_defined(e1, c1, entries.last())
    }
}

/// The log entries as values.
pub open spec fn entries_view(entries: Seq<WalEntry>) -> Seq<WalEntryView> {
    entries.map_values(|x: WalEntry| x@)
}

/// The entries of consecutive WAL segments, one segment after another.
pub open spec fn segment_entries(segments: Seq<(u64, Vec<WalEntry>, u64)>) -> Seq<WalEntryView>
    decreases segments.len(),
{
    if segments.len() == 0 {
        Seq::empty()
    } else {
        segment_entries(segments.drop_last()) + entries_view(segments.last().1@)
    }
}

/// The entries still to apply: all but the first `applied`.
pub open spec fn unapplied(all: Seq<WalEntryView>, applied: u64) -> Seq<WalEntryView> {
    all.skip(if applied < all.len() { applied as int } else { all.len() as int })
}

/// The tree recovery starts from: the snapshot's nodes and command id
/// when there is a snapshot, else the tree as it was.
pub open spec fn recovery_start(
    e: Seq<(Seq<char>, KvNodeView)>,
    cid: CommandId,
    snapshot: Option<&TreeKvSnapshot>,
) -> (Seq<(Seq<char>, KvNodeView)>, CommandId) {
    match snapshot {
        Some(s) => (restored_entries(snapshot_node_entries(s.nodes)), s.max_command_id),
        None => (e, cid),
    }
}

/// A fresh cursor at `segment` and `offset`, with its checksum.
pub open spec fn cursor_at(segment: u64, offset: u64) -> RecoveryCursor {
    let c = RecoveryCursor { version: 1, snapshot_generation: 0, wal_segment_id: segment, wal_offset: offset, checksum: 0 };
    RecoveryCursor { checksum: crc32_of(cursor_checked_bytes(c)), ..c }
}

/// Where the log ends after replaying `segments`: the last segment and its
/// length; the start of `start_segment` when there is no segment.
pub open spec fn log_end(start_segment: u64, segments: Seq<(u64, Vec<WalEntry>, u64)>) -> (u64, u64) {
    if segments.len() == 0 {
        (start_segment, 0)
    } else {
        (segments.last().0, segments.last().2)
    }
}

/// The cursor after recovery: a fresh cursor at the end of the log read.
pub open spec fn recovered_cursor(cursor: RecoveryCursor, segments: Seq<(u64, Vec<WalEntry>, u64)>) -> RecoveryCursor {
    cursor_at(log_end(cursor.wal_segment_id, segments).0, log_end(cursor.wal_segment_id, segments).1)
}

/// What replaying `rest` from `(e0, c0)` leaves: when every entry can be
/// applied, `r` is `Some(end)` and the tree is the replay's outcome;
/// otherwise `r` is `None` and the tree holds the replay up to the first
/// entry that cannot be applied.
pub open spec fn replay_result(
    e0: Seq<(Seq<char>, KvNodeView)>,
    d: Seq<Permission>,
    c0: CommandId,
    rest: Seq<WalEntryView>,
    tree_after: (Seq<(Seq<char>, KvNodeView)>, CommandId),
    r: Option<(u64, u64)>,
    end: (u64, u64),
) -> bool {
    if replay_defined(e0, d, c0, rest) {
        &&& r == Some(end)
        &&& tree_after == replay_outcome(e0, d, c0, rest)
    } else {
        &&& r is None
        &&& exists|k: int| 0 <= k < rest.len()
            && replay_defined(e0, d, c0, #[trigger] rest.take(k))
            && tree_after == replay_outcome(e0, d, c0, rest.take(k))
            && !apply_entry_defined(replay_outcome(e0, d, c0, rest.take(k)).0, replay_outcome(e0, d, c0, rest.take(k)).1, rest[k])
    }
}

/// Recovery of the state from the data directory.
#[derive(Debug)]
pub struct RecoveryManager {
    layout: StorageLayout,
    lock_acquired: bool,
}

impl RecoveryManager {
    /// A manager for the given layout that does not hold the lock yet.
    pub fn new(layout: StorageLayout) -> (r: RecoveryManager)
        ensures
            r.layout() == layout,
            !r.lock_acquired(),
    {
        RecoveryManager { layout, lock_acquired: false }
    }

    /// The layout recovered from.
    pub closed spec fn layout(&self) -> StorageLayout {
        self.layout
    }

    /// Whether this manager holds the data directory's lock.
    pub closed spec fn lock_acquired(&self) -> bool {
        self.lock_acquired
    }

    /// Takes the data directory's lock by running `create_lock_file`, which
    /// creates the lock file exclusively, writes the process id into it and
    /// reports what came of it. The lock is taken exactly when the file was
    /// created; a lock file that exists already means that another instance
    /// holds the lock; any other failure is that I/O error.
    pub fn acquire_lock<F: FnOnce() -> LockFileOutcome>(&mut self, create_lock_file: F) -> (r: Result<(), RecoveryError>)
        requires
            call_requires(create_lock_file, ()),
        ensures
            final(self).layout() == old(self).layout(),
            exists|a: LockFileOutcome| #![trigger call_ensures(create_lock_file, (), a)]
                call_ensures(create_lock_file, (), a) && match a {
                    LockFileOutcome::Created => r is Ok && final(self).lock_acquired(),
                    LockFileOutcome::AlreadyExists => r == Err::<(), RecoveryError>(RecoveryError::LockFailed)
                        && final(self).lock_acquired() == old(self).lock_acquired(),
                    LockFileOutcome::Failed(x) => r == Err::<(), RecoveryError>(RecoveryError::IoError(x))
                        && final(self).lock_acquired() == old(self).lock_acquired(),
                },
    {
        let created = create_lock_file();
        assert(call_ensures(create_lock_file, (), created));
        match created {
            LockFileOutcome::Created => {
                self.lock_acquired = true;
                Ok(())
            },
            LockFileOutcome::AlreadyExists => Err(RecoveryError::LockFailed),
            LockFileOutcome::Failed(e) => Err(RecoveryError::IoError(e)),
        }
    }

    /// Gives up the data directory's lock by running `remove_lock_file`;
    /// nothing is done when the lock is not held.
    pub fn release_lock<F: FnOnce() -> Result<(), std::io::Error>>(&mut self, remove_lock_file: F) -> (r: Result<(), RecoveryError>)
        requires
            call_requires(remove_lock_file, ()),
        ensures
            final(self).layout() == old(self).layout(),
            !old(self).lock_acquired() ==> r is Ok && !final(self).lock_acquired(),
            old(self).lock_acquired() ==> (r is Ok <==> !final(self).lock_acquired()),
            r matches Err(e) ==> e is IoError,
            old(self).lock_acquired() ==> exists|a: Result<(), std::io::Error>| #![trigger call_ensures(remove_lock_file, (), a)]
                call_ensures(remove_lock_file, (), a) && match a {
                    Ok(_) => r is Ok,
                    Err(x) => r == Err::<(), RecoveryError>(RecoveryError::IoError(x)),
                },
    {
        if !self.lock_acquired {
            return Ok(());
        }
        let removed = remove_lock_file();
        assert(call_ensures(remove_lock_file, (), removed));
        match removed {
            Ok(()) => {
                self.lock_acquired = false;
                Ok(())
            },
            Err(e) => Err(RecoveryError::IoError(e)),
        }
    }

    /// The recovery cursor from the contents of the cursor file (`None`
    /// when there is no file): the default cursor without a file, the
    /// cursor of the first 32 bytes otherwise; a shorter file is an I/O
    /// error.
    pub fn load_recovery_cursor(&self, stored: Option<Vec<u8>>) -> (r: Result<RecoveryCursor, RecoveryError>)
        ensures
            match stored {
                None => r == Ok::<RecoveryCursor, RecoveryError>(RecoveryCursor {
                    version: 1,
                    snapshot_generation: 0,
                    wal_segment_id: 0,
                    wal_offset: 0,
                    checksum: 0,
                }),
                Some(bytes) => if bytes@.len() >= CURSOR_RECORD_LEN {
                    r == Ok::<RecoveryCursor, RecoveryError>(cursor_of_bytes(bytes@))
                } else {
                    r matches Err(RecoveryError::IoError(_))
                },
            },
    {
        match stored {
            None => Ok(RecoveryCursor::default()),
            Some(bytes) => {
                if bytes.len() < CURSOR_RECORD_LEN {
                    return Err(RecoveryError::IoError(short_record_error()));
                }
                Ok(RecoveryCursor::decode(bytes.as_slice()))
            },
        }
    }

    /// Applies one log entry to the tree (see `apply_entry_outcome`).
    pub fn apply_entry(&self, tree: &mut TreeKv, entry: &WalEntry)
        requires
            apply_entry_defined(old(tree).entries(), old(tree).command_id_spec(), entry@),
        ensures
            (final(tree).entries(), final(tree).command_id_spec())
                == apply_entry_outcome(old(tree).entries(), old(tree).default_permissions(), old(tree).command_id_spec(), entry@),
            final(tree).default_permissions() == old(tree).default_permissions(),
    {
        let path = match NodePath::parse(entry.path.as_str()) {
            Ok(p) => p,
            Err(_) => return,
        };
        let value = match &entry.value {
            Some(v) => v.clone(),
            None => Vec::new(),
        };
        assert(value@ == (match entry@.value {
            Some(v) => v,
            None => Seq::<u8>::empty(),
        }));
        match entry.op_type {
            OpType::Create => {
                let _ = tree.create(&path, value, SYSTEM_SUBJECT);
            },
            OpType::SetValue => {
                let _ = tree.set(&path, value, None, SYSTEM_SUBJECT);
            },
            OpType::Delete => {
                let _ = tree.delete(&path, SYSTEM_SUBJECT);
            },
            _ => {},
        }
    }

    /// Whether `entry` can be applied to `tree` (see
    /// `apply_entry_defined`): the command id, and for a set the node's
    /// version, have room.
    pub fn can_apply(&self, tree: &TreeKv, entry: &WalEntry) -> (r: bool)
        ensures
            r == apply_entry_defined(tree.entries(), tree.command_id_spec(), entry@),
    {
        let path = match NodePath::parse(entry.path.as_str()) {
            Ok(p) => p,
            Err(_) => return true,
        };
        match entry.op_type {
            OpType::Create => tree.command_id() < u64::MAX,
            OpType::SetValue => {
                if tree.command_id() == u64::MAX {
                    return false;
                }
                match tree.node(&path) {
                    Some(n) => n.metadata.version < u64::MAX,
                    None => true,
                }
            },
            _ => true,
        }
    }

    /// Recovers the state: the snapshot, if any, is restored into `tree`,
    /// then the WAL is replayed from the cursor's position (see
    /// `replay_wal`). Gives the new cursor, at the end of the log read (see
    /// `recovered_cursor`); `None` when an entry cannot be applied because
    /// a counter would overflow.
    pub fn recover_from(
        &self,
        tree: &mut TreeKv,
        cursor: &RecoveryCursor,
        snapshot: Option<&TreeKvSnapshot>,
        segments: &Vec<(u64, Vec<WalEntry>, u64)>,
    ) -> (r: Option<RecoveryCursor>)
        requires
            forall|i: int| 0 <= i < segments@.len() ==> (#[trigger] segments@[i]).0 == cursor.wal_segment_id + i,
        ensures
            final(tree).default_permissions() == old(tree).default_permissions(),
            ({
                let (e0, c0) = recovery_start(old(tree).entries(), old(tree).command_id_spec(), snapshot);
                replay_result(e0, old(tree).default_permissions(), c0,
                    unapplied(segment_entries(segments@), cursor.wal_offset),
                    (final(tree).entries(), final(tree).command_id_spec()),
                    match r { Some(c) => Some((c.wal_segment_id, c.wal_offset)), None => None },
                    log_end(cursor.wal_segment_id, segments@))
                && (r matches Some(c) ==> c == recovered_cursor(*cursor, segments@))
            }),
    {
        match snapshot {
            Some(s) => tree.restore_from_snapshot(s),
            None => {},
        }
        match self.replay_wal(tree, cursor.wal_segment_id, cursor.wal_offset, segments) {
            None => None,
            Some((segment, offset)) => {
                let mut next = RecoveryCursor::default();
                next.wal_segment_id = segment;
                next.wal_offset = offset;
                next.checksum = next.compute_checksum();
                Some(next)
            },
        }
    }

    /// Replays the WAL onto the tree: `segments` are consecutive segments
    /// from `start_segment` on, each with its entries and its length; the
    /// first `start_offset` entries were applied before and are skipped,
    /// the rest are applied in order. Gives where the log ends (see
    /// `log_end`); `None` when an entry cannot be applied because a counter
    /// would overflow, the tree then holding the replay up to that entry.
    pub fn replay_wal(
        &self,
        tree: &mut TreeKv,
        start_segment: u64,
        start_offset: u64,
        segments: &Vec<(u64, Vec<WalEntry>, u64)>,
    ) -> (r: Option<(u64, u64)>)
        requires
            forall|i: int| 0 <= i < segments@.len() ==> (#[trigger] segments@[i]).0 == start_segment + i,
        ensures
            final(tree).default_permissions() == old(tree).default_permissions(),
            replay_result(old(tree).entries(), old(tree).default_permissions(), old(tree).command_id_spec(),
                unapplied(segment_entries(segments@), start_offset),
                (final(tree).entries(), final(tree).command_id_spec()), r, log_end(start_segment, segments@)),
    {
        let ghost e0 = tree.entries();
        let ghost c0 = tree.command_id_spec();
        let ghost d = tree.default_permissions();
        let flat = flatten_segments(segments);
        let ghost all = flat@.map_values(|e: &WalEntry| e@);
        let n = flat.len();
        let first: usize = if start_offset < n as u64 { start_offset as usize } else { n };
        let ghost rest = all.skip(first as int);
        assert(rest == unapplied(segment_entries(segments@), start_offset));
        assert(rest.take(0) =~= Seq::<WalEntryView>::empty());
        let mut i: usize = first;
        while i < n
            invariant
                first <= i <= n,
                n == flat@.len(),
                all == flat@.map_values(|e: &WalEntry| e@),
                rest == all.skip(first as int),
                rest == unapplied(segment_entries(segments@), start_offset),
                e0 == old(tree).entries(),
                c0 == old(tree).command_id_spec(),
                d == old(tree).default_permissions(),
                tree.default_permissions() == d,
                replay_defined(e0, d, c0, rest.take(i - first)),
                (tree.entries(), tree.command_id_spec()) == replay_outcome(e0, d, c0, rest.take(i - first)),
            decreases n - i,
        {
            let entry: &WalEntry = flat[i];
            let ghost k = i - first;
            proof {
                assert(rest.take(k + 1).drop_last() =~= rest.take(k));
                assert(rest.take(k + 1).last() == rest[k]);
                assert(rest[k] == entry@);
            }
            if !self.can_apply(tree, entry) {
                proof {
                    if replay_defined(e0, d, c0, rest) {
                        lemma_replay_prefix(e0, d, c0, rest, k + 1);
                    }
                    assert(!replay_defined(e0, d, c0, rest));
                    assert(0 <= k < rest.len() && replay_defined(e0, d, c0, rest.take(k)));
                }
                return None;
            }
            self.apply_entry(tree, entry);
            i = i + 1;
        }
        assert(rest.take(n - first) =~= rest);
        if segments.len() == 0 {
            Some((start_segment, 0))
        } else {
            let last = segments.len() - 1;
            Some((segments[last].0, segments[last].2))
        }
    }
}

/// The entries of the segments, flattened in order.
fn flatten_segments(segments: &Vec<(u64, Vec<WalEntry>, u64)>) -> (r: Vec<&WalEntry>)
    ensures
        r@.map_values(|e: &WalEntry| e@) == segment_entries(segments@),
{
    let mut flat: Vec<&WalEntry> = Vec::new();
    let mut i: usize = 0;
    while i < segments.len()
        invariant
            i <= segments@.len(),
            flat@.map_values(|e: &WalEntry| e@) == segment_entries(segments@.take(i as int)),
        decreases segments@.len() - i,
    {
        let seg = &segments[i].1;
        let ghost before = flat@.map_values(|e: &WalEntry| e@);
        let mut j: usize = 0;
        while j < seg.len()
            invariant
                j <= seg@.len(),
                flat@.map_values(|e: &WalEntry| e@) == before + entries_view(seg@.take(j as int)),
            decreases seg@.len() - j,
        {
            let ghost b = flat@.map_values(|e: &WalEntry| e@);
            flat.push(&seg[j]);
            assert(flat@.map_values(|e: &WalEntry| e@) =~= b.push(seg@[j as int]@));
            assert(entries_view(seg@.take(j + 1)) =~= entries_view(seg@.take(j as int)).push(seg@[j as int]@));
            assert(before + entries_view(seg@.take(j + 1)) =~= (before + entries_view(seg@.take(j as int))).push(seg@[j as int]@));
            j = j + 1;
        }
        assert(seg@.take(seg@.len() as int) =~= seg@);
        assert(segments@.take(i + 1).drop_last() =~= segments@.take(i as int));
        assert(segments@.take(i + 1).last() == segments@[i as int]);
        i = i + 1;
    }
    assert(segments@.take(segments@.len() as int) =~= segments@);
    flat
}

/// A prefix of entries that can be replayed in turn can be replayed.
proof fn lemma_replay_prefix(
    e: Seq<(Seq<char>, KvNodeView)>,
    defaults: Seq<Permission>,
    cid: CommandId,
    entries: Seq<WalEntryView>,
    k: int,
)
    requires
        replay_defined(e, defaults, cid, entries),
        0 <= k <= entries.len(),
    ensures
        replay_defined(e, defaults, cid, entries.take(k)),
    decreases entries.len() - k,
{
    if k < entries.len() {
        lemma_replay_prefix(e, defaults, cid, entries, k + 1);
        assert(entries.take(k + 1).drop_last() =~= entries.take(k));
    } else {
        assert(entries.take(k) =~= entries);
    }
}

/// Replaying a log in two parts, the second from the state the first
/// leaves, gives the state that replaying it whole gives.
pub proof fn lemma_replay_in_parts(
    e: Seq<(Seq<char>, KvNodeView)>,
    defaults: Seq<Permission>,
    cid: CommandId,
    first: Seq<WalEntryView>,
    rest: Seq<WalEntryView>,
)
    ensures
        replay_outcome(e, defaults, cid, first + rest) == {
            let (e1, c1) = replay_outcome(e, defaults, cid, first);
            replay_outcome(e1, defaults, c1, rest)
        },
    decreases rest.len(),
{
    if rest.len() == 0 {
        assert(first + rest =~= first);
    } else {
        lemma_replay_in_parts(e, defaults, cid, first, rest.drop_last());
        assert((first + rest).drop_last() =~= first + rest.drop_last());
        assert((first + rest).last() == rest.last());
    }
}

/// Where replay stands: the state being rebuilt and the log position.
#[derive(Debug)]
pub struct ReplayContext {
    pub tree: TreeKv,
    pub wal_segment_id: u64,
    pub wal_offset: u64,
}

impl ReplayContext {
    /// Replay of `tree` from the start of the log.
    pub fn new(tree: TreeKv) -> (r: ReplayContext)
        ensures
            r.tree == tree,
            r.wal_segment_id == 0,
            r.wal_offset == 0,
    {
        ReplayContext { tree, wal_segment_id: 0, wal_offset: 0 }
    }

    /// Moves the log position.
    pub fn update_position(&mut self, segment_id: u64, offset: u64)
        ensures
            final(self).tree == old(self).tree,
            final(self).wal_segment_id == segment_id,
            final(self).wal_offset == offset,
    {
        self.wal_segment_id = segment_id;
        self.wal_offset = offset;
    }
}

} // verus!
