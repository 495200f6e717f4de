//! The tree key/value state machine: versioned nodes addressed by
//! normalised paths, with ACL checks, optimistic version control driven by
//! command ids, child listing and snapshots.
use vstd::prelude::*;

use crate::acl::{Acl, AclChecker, AclEntry, Permission, acl_allows};
use crate::error::ErrorCode;
use crate::model::{CommandId, NodeKind, NodeMetadata, NodePath, is_normal_path, normalize_path, has_parent_segment, lemma_normalize_idempotent};
use crate::strmap::{StrMap, entries_insert, entries_remove, key_pos, keys_unique, lookup, lemma_key_pos, lemma_insert_unique, lemma_remove_unique};
use crate::text::{chars_of, chars_equal, chars_less, chars_lt, lemma_chars_lt_order, trim_trailing_slashes};
use crate::codec::put_bytes;

verus! {

/// Errors of tree operations.
#[derive(Debug)]
pub enum TreeKvError {
    PathNotFound,
    PathAlreadyExists,
    VersionConflict,
    PermissionDenied,
    InvalidPath,
    Internal(String),
}

/// The protocol error code of each tree error.
pub open spec fn tree_error_code(err: TreeKvError) -> ErrorCode {
    match err {
        TreeKvError::PathNotFound => ErrorCode::PathNotFound,
        TreeKvError::PathAlreadyExists => ErrorCode::PathAlreadyExists,
        TreeKvError::VersionConflict => ErrorCode::VersionConflict,
        TreeKvError::PermissionDenied => ErrorCode::PermissionDenied,
        TreeKvError::InvalidPath => ErrorCode::InvalidPath,
        TreeKvError::Internal(_) => ErrorCode::Internal,
    }
}

impl From<TreeKvError> for ErrorCode {
    /// The protocol error code of a tree error (see `tree_error_code`).
    fn from(err: TreeKvError) -> (r: ErrorCode) {
        match err {
            TreeKvError::PathNotFound => ErrorCode::PathNotFound,
            TreeKvError::PathAlreadyExists => ErrorCode::PathAlreadyExists,
            TreeKvError::VersionConflict => ErrorCode::VersionConflict,
            TreeKvError::PermissionDenied => ErrorCode::PermissionDenied,
            TreeKvError::InvalidPath => ErrorCode::InvalidPath,
            TreeKvError::Internal(_) => ErrorCode::Internal,
        }
    }
}

impl vstd::std_specs::convert::FromSpecImpl<TreeKvError> for ErrorCode {
    open spec fn obeys_from_spec() -> bool {
        true
    }

    open spec fn from_spec(v: TreeKvError) -> ErrorCode {
        tree_error_code(v)
    }
}

/// A change to the tree, as reported to watchers.
#[derive(Debug, Clone)]
pub enum TreeKvEvent {
    NodeCreated(NodePath),
    NodeUpdated(NodePath),
    NodeDeleted(NodePath),
    NodeExpired(NodePath),
}

/// A stored node: value, metadata and access control.
#[derive(Debug)]
pub struct KvNode {
    pub value: Vec<u8>,
    pub metadata: NodeMetadata,
    pub acl: Acl,
}

/// The mathematical content of a node.
#[verifier::ext_equal]
pub struct KvNodeView {
    pub value: Seq<u8>,
    pub metadata: NodeMetadata,
    pub acl: Seq<AclEntry>,
}

impl View for KvNode {
    type V = KvNodeView;

    open spec fn view(&self) -> KvNodeView {
        KvNodeView { value: self.value@, metadata: self.metadata, acl: self.acl.entries@ }
    }
}

/// Node entries by their views.
pub open spec fn view_entries(e: Seq<(Seq<char>, KvNode)>) -> Seq<(Seq<char>, KvNodeView)> {
    e.map_values(|p: (Seq<char>, KvNode)| (p.0, p.1@))
}

proof fn lemma_view_key_pos(e: Seq<(Seq<char>, KvNode)>, k: Seq<char>)
    ensures
        key_pos(view_entries(e), k) == key_pos(e, k),
    decreases e.len(),
{
    if e.len() > 0 {
        assert(view_entries(e).drop_last() =~= view_entries(e.drop_last()));
        lemma_view_key_pos(e.drop_last(), k);
    }
}

proof fn lemma_view_insert(e: Seq<(Seq<char>, KvNode)>, k: Seq<char>, v: KvNode)
    ensures
        view_entries(entries_insert(e, k, v)) == entries_insert(view_entries(e), k, v@),
{
    lemma_view_key_pos(e, k);
    lemma_key_pos(e, k);
    let m = view_entries(e);
    if key_pos(e, k) >= 0 {
        assert(view_entries(entries_insert(e, k, v)) =~= m.update(key_pos(e, k), (k, v@)));
    } else {
        assert(view_entries(entries_insert(e, k, v)) =~= m.push((k, v@)));
    }
}

proof fn lemma_view_remove(e: Seq<(Seq<char>, KvNode)>, k: Seq<char>)
    ensures
        view_entries(entries_remove(e, k)) == entries_remove(view_entries(e), k),
{
    lemma_view_key_pos(e, k);
    lemma_key_pos(e, k);
    if key_pos(e, k) >= 0 {
        assert(view_entries(entries_remove(e, k)) =~= view_entries(e).remove(key_pos(e, k)));
    }
}

proof fn lemma_view_lookup(e: Seq<(Seq<char>, KvNode)>, k: Seq<char>)
    ensures
        lookup(view_entries(e), k) == (match lookup(e, k) {
            Some(n) => Some(n@),
            None => None::<KvNodeView>,
        }),
{
    lemma_view_key_pos(e, k);
    lemma_key_pos(e, k);
}

/// Whether an operation may proceed: a missing node puts no restriction,
/// otherwise its ACL or the checker's fallback permissions must grant it.
pub open spec fn permitted(
    nodes: Seq<(Seq<char>, KvNodeView)>,
    defaults: Seq<Permission>,
    path: Seq<char>,
    permission: Permission,
    subject: Seq<char>,
) -> bool {
    match lookup(nodes, path) {
        None => true,
        Some(n) => acl_allows(n.acl, subject, permission) || defaults.contains(permission),
    }
}

/// Whether `p` names a direct child of `parent`: it continues
/// `parent` (without trailing slashes) by one slash and one more segment.
pub open spec fn is_child_path(parent: Seq<char>, p: Seq<char>) -> bool {
    let prefix = trim_trailing_slashes(parent).push('/');
    &&& prefix.is_prefix_of(p)
    &&& p != parent
    &&& !p.skip(prefix.len() as int).contains('/')
}

/// The paths among `keys` that are direct children of `parent`, in order.
pub open spec fn children_of<V>(e: Seq<(Seq<char>, V)>, parent: Seq<char>) -> Seq<Seq<char>>
    decreases e.len(),
{
    if e.len() == 0 {
        Seq::empty()
    } else if is_child_path(parent, e.last().0) {
        children_of(e.drop_last(), parent).push(e.last().0)
    } else {
        children_of(e.drop_last(), parent)
    }
}

/// The texts of node paths.
pub open spec fn path_views(v: Seq<NodePath>) -> Seq<Seq<char>> {
    v.map_values(|q: NodePath| q@)
}

/// `r` lists the direct children of `parent` among the stored paths, in
/// ascending order.
pub open spec fn sorted_children<V>(r: Seq<Seq<char>>, e: Seq<(Seq<char>, V)>, parent: Seq<char>) -> bool {
    &&& paths_ascending(r)
    &&& forall|x: Seq<char>| #[trigger] r.contains(x) <==> children_of(e, parent).contains(x)
}

/// Whether paths are in strictly ascending order.
pub open spec fn paths_ascending(s: Seq<Seq<char>>) -> bool {
    forall|i: int, j: int| 0 <= i < j < s.len() ==> chars_lt(#[trigger] s[i], #[trigger] s[j])
}

/// The direct children of `parent` are the stored paths that are its
/// children; with unique keys none occurs twice.
proof fn lemma_children_of<V>(e: Seq<(Seq<char>, V)>, parent: Seq<char>)
    ensures
        forall|x: Seq<char>| #[trigger] children_of(e, parent).contains(x)
            <==> (is_child_path(parent, x) && exists|j: int| 0 <= j < e.len() && (#[trigger] e[j]).0 == x),
        keys_unique(e) ==> forall|i: int, j: int| 0 <= i < j < children_of(e, parent).len()
            ==> children_of(e, parent)[i] != children_of(e, parent)[j],
    decreases e.len(),
{
    if e.len() > 0 {
        let d = e.drop_last();
        let last = e.last();
        lemma_children_of(d, parent);
        let c = children_of(e, parent);
        let cd = children_of(d, parent);
        assert forall|x: Seq<char>| #[trigger] c.contains(x)
            <==> (is_child_path(parent, x) && exists|j: int| 0 <= j < e.len() && (#[trigger] e[j]).0 == x) by {
            if is_child_path(parent, last.0) {
                assert(c == cd.push(last.0));
                if c.contains(x) {
                    let k = choose|k: int| 0 <= k < c.len() && c[k] == x;
                    if k < cd.len() {
                        assert(cd[k] == x);
                    }
                }
                if cd.contains(x) {
                    let k = choose|k: int| 0 <= k < cd.len() && cd[k] == x;
                    assert(c[k] == x);
                }
                if x == last.0 {
                    assert(c[cd.len() as int] == x);
                }
            } else {
                assert(c == cd);
            }
            if exists|j: int| 0 <= j < d.len() && (#[trigger] d[j]).0 == x {
                let j = choose|j: int| 0 <= j < d.len() && (#[trigger] d[j]).0 == x;
                assert(e[j] == d[j]);
            }
            if exists|j: int| 0 <= j < e.len() && (#[trigger] e[j]).0 == x {
                let j = choose|j: int| 0 <= j < e.len() && (#[trigger] e[j]).0 == x;
                if j < d.len() {
                    assert(d[j] == e[j]);
                } else {
                    assert(e[j] == last);
                }
            }
        }
        if keys_unique(e) {
            assert(keys_unique(d)) by {
                assert forall|i: int, j: int| 0 <= i < d.len() && 0 <= j < d.len() && i != j implies (#[trigger] d[i]).0 != (#[trigger] d[j]).0 by {
                    assert(d[i] == e[i] && d[j] == e[j]);
                }
            }
            if is_child_path(parent, last.0) {
                assert(c == cd.push(last.0));
                assert forall|i: int, j: int| 0 <= i < j < c.len() implies c[i] != c[j] by {
                    if j == c.len() - 1 {
                        if c[i] == c[j] {
                            assert(cd[i] == last.0);
                            assert(cd.contains(last.0));
                            let k = choose|k: int| 0 <= k < d.len() && (#[trigger] d[k]).0 == last.0;
                            assert(e[k] == d[k]);
                            assert(e[e.len() - 1] == last);
                        }
                    } else {
                        assert(c[i] == cd[i] && c[j] == cd[j]);
                    }
                }
            } else {
                assert(c == cd);
            }
        }
    }
}

/// Whether the path `a` comes before the text `b`.
fn path_before(a: &NodePath, b: &Vec<char>) -> (r: bool)
    ensures
        r == chars_lt(a@, b@),
{
    let ac = chars_of(a.as_str());
    chars_less(&ac, b)
}

/// Inserts a path into an ascending list at the position that keeps it
/// ascending.
fn insert_ascending(out: &mut Vec<NodePath>, p: NodePath)
    requires
        paths_ascending(path_views(old(out)@)),
        !path_views(old(out)@).contains(p@),
    ensures
        paths_ascending(path_views(final(out)@)),
        forall|x: Seq<char>| #[trigger] path_views(final(out)@).contains(x)
            <==> (path_views(old(out)@).contains(x) || x == p@),
{
    let ghost s = path_views(out@);
    let pc = chars_of(p.as_str());
    let mut i: usize = 0;
    while i < out.len() && path_before(&out[i], &pc)
        invariant
            i <= s.len(),
            s == path_views(out@),
            out@ == old(out)@,
            pc@ == p@,
            paths_ascending(s),
            !s.contains(p@),
            forall|j: int| 0 <= j < i ==> chars_lt(#[trigger] s[j], p@),
        decreases s.len() - i,
    {
        assert(out@[i as int]@ == s[i as int]);
        i = i + 1;
    }
    assert(i < s.len() ==> s[i as int] == out@[i as int]@);
    proof {
        assert forall|j: int| i <= j < s.len() implies chars_lt(p@, #[trigger] s[j]) by {
            lemma_chars_lt_order(s[i as int], p@, p@);
            assert(s[i as int] != p@);
            if j > i {
                lemma_chars_lt_order(p@, s[i as int], s[j]);
            }
        }
    }
    let ghost pv = p@;
    out.insert(i, p);
    let ghost s2 = path_views(out@);
    assert(s2 =~= s.insert(i as int, pv));
    assert forall|a: int, b: int| 0 <= a < b < s2.len() implies chars_lt(#[trigger] s2[a], #[trigger] s2[b]) by {
        if b < i {
        } else if b == i {
        } else if a < i {
            assert(s2[b] == s[b - 1]);
            lemma_chars_lt_order(s[a], pv, s[b - 1]);
        } else if a == i {
            assert(s2[b] == s[b - 1]);
        } else {
            assert(s2[a] == s[a - 1] && s2[b] == s[b - 1]);
        }
    }
    assert forall|x: Seq<char>| #[trigger] s2.contains(x) <==> (s.contains(x) || x == pv) by {
        if s2.contains(x) {
            let k = choose|k: int| 0 <= k < s2.len() && s2[k] == x;
            if k < i {
                assert(s[k] == x);
            } else if k > i {
                assert(s[k - 1] == x);
            }
        }
        if s.contains(x) {
            let k = choose|k: int| 0 <= k < s.len() && s[k] == x;
            if k < i {
                assert(s2[k] == x);
            } else {
                assert(s2[k + 1] == x);
            }
        }
        if x == pv {
            assert(s2[i as int] == x);
        }
    }
}

/// A node as a set leaves it: the new value, one more version, the
/// command id that modified it.
pub open spec fn updated_node(n: KvNodeView, value: Seq<u8>, command_id: CommandId) -> KvNodeView {
    KvNodeView {
        value,
        metadata: NodeMetadata {
            version: (n.metadata.version + 1) as u64,
            modify_command_id: command_id,
            ..n.metadata
        },
        acl: n.acl,
    }
}

/// Creating `path` with `value` when the last command id is `cid`: the
/// nodes and the command id afterwards, and the refusal if any.
pub open spec fn create_outcome(
    e: Seq<(Seq<char>, KvNodeView)>,
    cid: CommandId,
    path: Seq<char>,
    value: Seq<u8>,
) -> (Seq<(Seq<char>, KvNodeView)>, CommandId, Option<TreeKvError>) {
    if lookup(e, path) is Some {
        (e, cid, Some(TreeKvError::PathAlreadyExists))
    } else {
        (e.push((path, TreeKv::fresh_node(value, (cid + 1) as CommandId))), (cid + 1) as CommandId, None)
    }
}

/// Setting `path` to `value`: the nodes and the command id afterwards, and
/// the refusal if any. A command id is spent once permission is granted.
pub open spec fn set_outcome(
    e: Seq<(Seq<char>, KvNodeView)>,
    defaults: Seq<Permission>,
    cid: CommandId,
    path: Seq<char>,
    value: Seq<u8>,
    expected_version: Option<u64>,
    subject: Seq<char>,
) -> (Seq<(Seq<char>, KvNodeView)>, CommandId, Option<TreeKvError>) {
    if !permitted(e, defaults, path, Permission::Write, subject) {
        (e, cid, Some(TreeKvError::PermissionDenied))
    } else {
        let c = (cid + 1) as CommandId;
        match lookup(e, path) {
            None => (e, c, Some(TreeKvError::PathNotFound)),
            Some(n) => if expected_version matches Some(v) && v != n.metadata.version {
                (e, c, Some(TreeKvError::VersionConflict))
            } else {
                (entries_insert(e, path, updated_node(n, value, c)), c, None)
            },
        }
    }
}

/// Deleting `path`: the nodes afterwards and the refusal if any.
pub open spec fn delete_outcome(
    e: Seq<(Seq<char>, KvNodeView)>,
    defaults: Seq<Permission>,
    path: Seq<char>,
    subject: Seq<char>,
) -> (Seq<(Seq<char>, KvNodeView)>, Option<TreeKvError>) {
    if !permitted(e, defaults, path, Permission::Delete, subject) {
        (e, Some(TreeKvError::PermissionDenied))
    } else if lookup(e, path) is Some {
        (entries_remove(e, path), None)
    } else {
        (e, Some(TreeKvError::PathNotFound))
    }
}

/// The tree store.
#[derive(Debug)]
pub struct TreeKv {
    nodes: StrMap<KvNode>,
    acl_checker: AclChecker,
    command_id: CommandId,
}

impl Default for TreeKv {
    fn default() -> (r: TreeKv)
        ensures
            r.entries().len() == 0,
            r.command_id_spec() == 0,
            r.default_permissions().len() == 0,
    {
        TreeKv::new()
    }
}

impl TreeKv {
    /// Every stored path is in normal form.
    #[verifier::type_invariant]
    spec fn inv(&self) -> bool {
        forall|i: int| 0 <= i < self.nodes@.len() ==> is_normal_path(#[trigger] self.nodes@[i].0)
    }

    /// The nodes, in the store's order, by path.
    pub closed spec fn entries(&self) -> Seq<(Seq<char>, KvNodeView)> {
        view_entries(self.nodes@)
    }

    /// The id of the last command applied.
    pub closed spec fn command_id_spec(&self) -> CommandId {
        self.command_id
    }

    /// The fallback permissions of the store's checker.
    pub closed spec fn default_permissions(&self) -> Seq<Permission> {
        self.acl_checker.default_permissions()
    }

    /// Whether `self` may perform `permission` on `path`.
    pub open spec fn may(&self, path: Seq<char>, permission: Permission, subject: Seq<char>) -> bool {
        permitted(self.entries(), self.default_permissions(), path, permission, subject)
    }

    /// Facts every store satisfies: unique, normal paths.
    pub fn well_formed(&self)
        ensures
            keys_unique(self.entries()),
            forall|i: int| 0 <= i < self.entries().len() ==> is_normal_path(#[trigger] self.entries()[i].0),
    {
        proof {
            use_type_invariant(self);
            use_type_invariant(&self.nodes);
            lemma_view_unique(self.nodes@);
            assert forall|i: int| 0 <= i < self.entries().len() implies is_normal_path(#[trigger] self.entries()[i].0) by {
                assert(self.entries()[i].0 == self.nodes@[i].0);
            }
        }
    }

    /// An empty store without fallback permissions.
    pub fn new() -> (r: TreeKv)
        ensures
            r.entries().len() == 0,
            r.command_id_spec() == 0,
            r.default_permissions().len() == 0,
    {
        let r = TreeKv { nodes: StrMap::new(), acl_checker: AclChecker::new(), command_id: 0 };
        assert(r.entries() =~= Seq::<(Seq<char>, KvNodeView)>::empty());
        r
    }

    /// An empty store with the given checker.
    pub fn with_acl_checker(acl_checker: AclChecker) -> (r: TreeKv)
        ensures
            r.entries().len() == 0,
            r.command_id_spec() == 0,
            r.default_permissions() == acl_checker.default_permissions(),
    {
        let r = TreeKv { nodes: StrMap::new(), acl_checker, command_id: 0 };
        assert(r.entries() =~= Seq::<(Seq<char>, KvNodeView)>::empty());
        r
    }

    fn check_permission(&self, path: &NodePath, permission: Permission, session_subject: &str) -> (r: Result<(), TreeKvError>)
        ensures
            r is Ok <==> self.may(path@, permission, session_subject@),
            r is Err ==> r matches Err(TreeKvError::PermissionDenied),
    {
        proof { lemma_view_lookup(self.nodes@, path@); }
        match self.nodes.get(path.as_str()) {
            Some(node) => {
                if node.acl.allows(session_subject, permission) {
                    return Ok(());
                }
                match self.acl_checker.check(&node.acl, session_subject, permission) {
                    Ok(()) => Ok(()),
                    Err(_) => Err(TreeKvError::PermissionDenied),
                }
            },
            None => Ok(()),
        }
    }

    /// Whether `session_subject` may perform `permission` on `path`.
    pub fn permits(&self, path: &NodePath, permission: Permission, session_subject: &str) -> (r: bool)
        ensures
            r == self.may(path@, permission, session_subject@),
    {
        self.check_permission(path, permission, session_subject).is_ok()
    }

    /// The node at `path`, read without a permission check.
    pub fn node(&self, path: &NodePath) -> (r: Option<&KvNode>)
        ensures
            match r {
                Some(n) => lookup(self.entries(), path@) == Some(n@),
                None => lookup(self.entries(), path@) is None,
            },
    {
        proof { lemma_view_lookup(self.nodes@, path@); }
        self.nodes.get(path.as_str())
    }

    /// The direct children of `path`, in the store's order.
    pub fn list_children(&self, path: &NodePath) -> (r: Vec<NodePath>)
        ensures
            sorted_children(path_views(r@), self.entries(), path@),
    {
        proof { use_type_invariant(self); }
        self.well_formed();
        let parent = chars_of(path.as_str());
        let mut prefix = parent.clone();
        let mut cut: usize = prefix.len();
        assert(parent@.take(parent@.len() as int) =~= parent@);
        while cut > 0 && prefix[cut - 1] == '/'
            invariant
                cut <= prefix@.len(),
                prefix@ == parent@,
                trim_trailing_slashes(parent@) == trim_trailing_slashes(parent@.take(cut as int)),
            decreases cut,
        {
            assert(parent@.take(cut as int).drop_last() =~= parent@.take(cut - 1));
            cut = cut - 1;
        }
        let mut trimmed: Vec<char> = Vec::new();
        let mut t: usize = 0;
        while t < cut
            invariant
                t <= cut,
                cut <= prefix@.len(),
                prefix@ == parent@,
                trimmed@ == parent@.take(t as int),
            decreases cut - t,
        {
            trimmed.push(prefix[t]);
            assert(parent@.take(t as int).push(parent@[t as int]) =~= parent@.take(t + 1));
            t = t + 1;
        }
        assert(trim_trailing_slashes(parent@.take(cut as int)) == parent@.take(cut as int));
        trimmed.push('/');
        let ghost pre = trim_trailing_slashes(path@).push('/');
        assert(trimmed@ =~= pre);
        let mut out: Vec<NodePath> = Vec::new();
        let mut i: usize = 0;
        while i < self.nodes.len()
            invariant
                i <= self.nodes@.len(),
                trimmed@ == pre,
                pre == trim_trailing_slashes(path@).push('/'),
                parent@ == path@,
                forall|j: int| 0 <= j < self.nodes@.len() ==> is_normal_path(#[trigger] self.nodes@[j].0),
                keys_unique(self.entries()),
                self.entries() == view_entries(self.nodes@),
                sorted_children(path_views(out@), view_entries(self.nodes@).take(i as int), path@),
            decreases self.nodes@.len() - i,
        {
            let key = self.nodes.key_at(i);
            let kc = chars_of(key.as_str());
            let child = Self::child_test(&trimmed, &parent, &kc);
            let ghost e = view_entries(self.nodes@);
            proof {
                assert(e.take(i + 1).drop_last() =~= e.take(i as int));
                assert(e.take(i + 1).last() == e[i as int]);
                assert(e[i as int].0 == self.nodes@[i as int].0);
                assert(kc@ == e[i as int].0);
                assert(parent@ == path@);
                assert(trimmed@ == trim_trailing_slashes(path@).push('/'));
                assert(child == (trimmed@.is_prefix_of(kc@) && kc@ != parent@ && !kc@.skip(trimmed@.len() as int).contains('/')));
                assert(child == is_child_path(path@, e[i as int].0));
            }
            proof {
                lemma_children_of(e.take(i as int), path@);
                lemma_children_of(e.take(i + 1), path@);
                if child {
                    assert(children_of(e.take(i + 1), path@) == children_of(e.take(i as int), path@).push(e[i as int].0));
                } else {
                    assert(children_of(e.take(i + 1), path@) == children_of(e.take(i as int), path@));
                }
                assert forall|x: Seq<char>| #[trigger] children_of(e.take(i + 1), path@).contains(x)
                    <==> (children_of(e.take(i as int), path@).contains(x) || (child && x == e[i as int].0)) by {
                    let a = children_of(e.take(i as int), path@);
                    let b = children_of(e.take(i + 1), path@);
                    if child {
                        if b.contains(x) {
                            let k = choose|k: int| 0 <= k < b.len() && b[k] == x;
                            if k < a.len() {
                                assert(a[k] == x);
                            }
                        }
                        if a.contains(x) {
                            let k = choose|k: int| 0 <= k < a.len() && a[k] == x;
                            assert(b[k] == x);
                        }
                        if x == e[i as int].0 {
                            assert(b[a.len() as int] == x);
                        }
                    }
                }
                if child && children_of(e.take(i as int), path@).contains(e[i as int].0) {
                    let j = choose|j: int| 0 <= j < e.take(i as int).len() && (#[trigger] e.take(i as int)[j]).0 == e[i as int].0;
                    assert(e.take(i as int)[j] == e[j]);
                }
            }
            if child {
                let np = NodePath::from_normal(key.clone());
                insert_ascending(&mut out, np);
            }
            i = i + 1;
        }
        assert(view_entries(self.nodes@).take(self.nodes@.len() as int) =~= view_entries(self.nodes@));
        out
    }

    /// The view of a freshly created node.
    pub open spec fn fresh_node(value: Seq<u8>, command_id: CommandId) -> KvNodeView {
        KvNodeView {
            value,
            metadata: NodeMetadata {
                version: 1,
                create_command_id: command_id,
                modify_command_id: command_id,
                kind: NodeKind::Persistent,
            },
            acl: Seq::empty(),
        }
    }

    /// Creates a node with version 1 and an empty ACL; refused when the
    /// path exists.
    pub fn create(&mut self, path: &NodePath, value: Vec<u8>, session_subject: &str) -> (r: Result<(), TreeKvError>)
        requires
            old(self).command_id_spec() < u64::MAX,
        ensures
            final(self).default_permissions() == old(self).default_permissions(),
            lookup(old(self).entries(), path@) is Some ==> {
                &&& r matches Err(TreeKvError::PathAlreadyExists)
                &&& final(self).entries() == old(self).entries()
                &&& final(self).command_id_spec() == old(self).command_id_spec()
            },
            lookup(old(self).entries(), path@) is None ==> {
                &&& r is Ok
                &&& final(self).command_id_spec() == old(self).command_id_spec() + 1
                &&& final(self).entries() == old(self).entries().push(
                    (path@, Self::fresh_node(value@, (old(self).command_id_spec() + 1) as u64)))
            },
    {
        proof {
            use_type_invariant(&*self);
            use_type_invariant(path);
            lemma_view_lookup(self.nodes@, path@);
        }
        if self.nodes.contains_key(path.as_str()) {
            return Err(TreeKvError::PathAlreadyExists);
        }
        self.check_permission(path, Permission::Create, session_subject)?;
        let command_id = self.next_command_id();
        let node = KvNode {
            value,
            metadata: NodeMetadata {
                version: 1,
                create_command_id: command_id,
                modify_command_id: command_id,
                kind: NodeKind::Persistent,
            },
            acl: Acl::empty(),
        };
        let ghost before = self.nodes@;
        let ghost nv = node@;
        proof {
            lemma_key_pos(before, path@);
            lemma_view_insert(before, path@, node);
        }
        let mut nodes = self.take_nodes();
        nodes.insert(path.to_path_string(), node);
        proof {
            assert forall|i: int| 0 <= i < nodes@.len() implies is_normal_path(#[trigger] nodes@[i].0) by {
                if i < before.len() {
                    assert(nodes@[i] == before[i]);
                }
            }
        }
        self.nodes = nodes;
        proof {
            assert(nv =~= Self::fresh_node(value@, command_id));
            assert(self.nodes@ == before.push((path@, node)));
            assert forall|i: int| 0 <= i < self.nodes@.len() implies is_normal_path(#[trigger] self.nodes@[i].0) by {
                if i < before.len() {
                    assert(self.nodes@[i] == before[i]);
                }
            }
        }
        Ok(())
    }

    fn take_nodes(&mut self) -> (r: StrMap<KvNode>)
        ensures
            r@ == old(self).nodes@,
            final(self).nodes@.len() == 0,
            final(self).command_id == old(self).command_id,
            final(self).acl_checker == old(self).acl_checker,
            forall|i: int| 0 <= i < r@.len() ==> is_normal_path(#[trigger] r@[i].0),
    {
        proof { use_type_invariant(&*self); }
        let mut nodes = StrMap::new();
        std::mem::swap(&mut nodes, &mut self.nodes);
        nodes
    }

    fn next_command_id(&mut self) -> (r: CommandId)
        requires
            old(self).command_id < u64::MAX,
        ensures
            r == old(self).command_id + 1,
            final(self).command_id == r,
            final(self).nodes@ == old(self).nodes@,
            final(self).acl_checker == old(self).acl_checker,
    {
        proof { use_type_invariant(&*self); }
        self.command_id = self.command_id + 1;
        self.command_id
    }

    /// Reads a node.
    pub fn get(&self, path: &NodePath, session_subject: &str) -> (r: Result<&KvNode, TreeKvError>)
        ensures
            !self.may(path@, Permission::Read, session_subject@) ==> r matches Err(TreeKvError::PermissionDenied),
            self.may(path@, Permission::Read, session_subject@) ==> match r {
                Ok(n) => lookup(self.entries(), path@) == Some(n@),
                Err(e) => e is PathNotFound && lookup(self.entries(), path@) is None,
            },
    {
        proof { lemma_view_lookup(self.nodes@, path@); }
        self.check_permission(path, Permission::Read, session_subject)?;
        match self.nodes.get(path.as_str()) {
            Some(n) => Ok(n),
            None => Err(TreeKvError::PathNotFound),
        }
    }

    /// Replaces a node's value, bumping its version; with an expected
    /// version the update is refused unless it matches. A command id is
    /// spent once the permission check passes, even when the update is then
    /// refused.
    pub fn set(&mut self, path: &NodePath, value: Vec<u8>, expected_version: Option<u64>, session_subject: &str) -> (r: Result<(), TreeKvError>)
        requires
            old(self).command_id_spec() < u64::MAX,
            lookup(old(self).entries(), path@) matches Some(n) ==> n.metadata.version < u64::MAX,
        ensures
            final(self).default_permissions() == old(self).default_permissions(),
            !old(self).may(path@, Permission::Write, session_subject@) ==> {
                &&& r matches Err(TreeKvError::PermissionDenied)
                &&& final(self).entries() == old(self).entries()
                &&& final(self).command_id_spec() == old(self).command_id_spec()
            },
            old(self).may(path@, Permission::Write, session_subject@) ==> {
                &&& final(self).command_id_spec() == old(self).command_id_spec() + 1
                &&& match lookup(old(self).entries(), path@) {
                    None => r matches Err(TreeKvError::PathNotFound) && final(self).entries() == old(self).entries(),
                    Some(n) => if expected_version matches Some(v) && v != n.metadata.version {
                        r matches Err(TreeKvError::VersionConflict) && final(self).entries() == old(self).entries()
                    } else {
                        r is Ok && final(self).entries() == entries_insert(old(self).entries(), path@, KvNodeView {
                            value: value@,
                            metadata: NodeMetadata {
                                version: (n.metadata.version + 1) as u64,
                                modify_command_id: (old(self).command_id_spec() + 1) as u64,
                                ..n.metadata
                            },
                            acl: n.acl,
                        })
                    },
                }
            },
    {
        proof {
            use_type_invariant(&*self);
            lemma_view_lookup(self.nodes@, path@);
            lemma_key_pos(self.nodes@, path@);
        }
        self.check_permission(path, Permission::Write, session_subject)?;
        let command_id = self.next_command_id();
        let pos = match self.nodes.find(path.as_str()) {
            Some(i) => i,
            None => {
                return Err(TreeKvError::PathNotFound);
            },
        };
        match expected_version {
            Some(expected) => {
                if self.nodes.value_at(pos).metadata.version != expected {
                    return Err(TreeKvError::VersionConflict);
                }
            },
            None => {},
        }
        let placeholder = KvNode {
            value: Vec::new(),
            metadata: NodeMetadata { version: 0, create_command_id: 0, modify_command_id: 0, kind: NodeKind::Persistent },
            acl: Acl::empty(),
        };
        let ghost before = self.nodes@;
        let mut nodes = self.take_nodes();
        let mut node = nodes.replace_value_at(pos, placeholder);
        node.value = value;
        node.metadata.version = node.metadata.version + 1;
        node.metadata.modify_command_id = command_id;
        nodes.set_value_at(pos, node);
        proof {
            assert forall|i: int| 0 <= i < nodes@.len() implies is_normal_path(#[trigger] nodes@[i].0) by {
                assert(nodes@[i].0 == before[i].0);
            }
        }
        self.nodes = nodes;
        proof {
            assert(self.nodes@ == before.update(pos as int, (path@, node)));
            assert(entries_insert(before, path@, node) == before.update(pos as int, (path@, node)));
            lemma_view_insert(before, path@, node);
            assert forall|i: int| 0 <= i < self.nodes@.len() implies is_normal_path(#[trigger] self.nodes@[i].0) by {
                assert(self.nodes@[i].0 == before[i].0);
            }
        }
        Ok(())
    }

    /// Removes a node.
    pub fn delete(&mut self, path: &NodePath, session_subject: &str) -> (r: Result<(), TreeKvError>)
        ensures
            final(self).default_permissions() == old(self).default_permissions(),
            final(self).command_id_spec() == old(self).command_id_spec(),
            !old(self).may(path@, Permission::Delete, session_subject@) ==> {
                &&& r matches Err(TreeKvError::PermissionDenied)
                &&& final(self).entries() == old(self).entries()
            },
            old(self).may(path@, Permission::Delete, session_subject@) ==> {
                &&& final(self).entries() == entries_remove(old(self).entries(), path@)
                &&& (lookup(old(self).entries(), path@) is Some <==> r is Ok)
                &&& r is Err ==> r matches Err(TreeKvError::PathNotFound)
            },
    {
        proof {
            use_type_invariant(&*self);
            lemma_view_lookup(self.nodes@, path@);
            lemma_view_remove(self.nodes@, path@);
            lemma_key_pos(self.nodes@, path@);
        }
        self.check_permission(path, Permission::Delete, session_subject)?;
        let ghost before = self.nodes@;
        let mut nodes = self.take_nodes();
        let removed = nodes.remove(path.as_str());
        proof {
            let p = key_pos(before, path@);
            assert forall|i: int| 0 <= i < nodes@.len() implies is_normal_path(#[trigger] nodes@[i].0) by {
                if p >= 0 {
                    if i < p {
                        assert(nodes@[i] == before[i]);
                    } else {
                        assert(nodes@[i] == before[i + 1]);
                    }
                } else {
                    assert(nodes@[i] == before[i]);
                }
            }
        }
        self.nodes = nodes;
        match removed {
            Some(_) => Ok(()),
            None => Err(TreeKvError::PathNotFound),
        }
    }

    /// The direct children of an existing node.
    pub fn list(&self, path: &NodePath, session_subject: &str) -> (r: Result<Vec<NodePath>, TreeKvError>)
        ensures
            !self.may(path@, Permission::Read, session_subject@) ==> r matches Err(TreeKvError::PermissionDenied),
            self.may(path@, Permission::Read, session_subject@) ==> match r {
                Ok(c) => lookup(self.entries(), path@) is Some
                    && sorted_children(path_views(c@), self.entries(), path@),
                Err(e) => e is PathNotFound && lookup(self.entries(), path@) is None,
            },
    {
        proof { lemma_view_lookup(self.nodes@, path@); }
        self.check_permission(path, Permission::Read, session_subject)?;
        if !self.nodes.contains_key(path.as_str()) {
            return Err(TreeKvError::PathNotFound);
        }
        Ok(self.list_children(path))
    }

    /// Number of nodes.
    pub fn len(&self) -> (r: usize)
        ensures
            r == self.entries().len(),
    {
        self.nodes.len()
    }

    /// Whether the store holds no node.
    pub fn is_empty(&self) -> (r: bool)
        ensures
            r == (self.entries().len() == 0),
    {
        self.nodes.is_empty()
    }

    /// The id of the last command applied.
    pub fn command_id(&self) -> (r: CommandId)
        ensures
            r == self.command_id_spec(),
    {
        self.command_id
    }

    /// A snapshot of every node, in the store's order, and the command id.
    pub fn create_snapshot(&self) -> (r: TreeKvSnapshot)
        ensures
            snapshot_node_entries(r.nodes) == snapshot_of_entries(self.entries()),
            r.max_command_id == self.command_id_spec(),
    {
        self.well_formed();
        let mut nodes: StrMap<SnapshotNodeData> = StrMap::new();
        let mut i: usize = 0;
        assert(snapshot_node_entries(nodes) =~= snapshot_of_entries(self.entries().take(0)));
        while i < self.nodes.len()
            invariant
                i <= self.nodes@.len(),
                self.entries().len() == self.nodes@.len(),
                keys_unique(self.entries()),
                snapshot_node_entries(nodes) == snapshot_of_entries(self.entries().take(i as int)),
            decreases self.nodes@.len() - i,
        {
            let key = self.nodes.key_at(i);
            let node = self.nodes.value_at(i);
            let mut value: Vec<u8> = Vec::new();
            put_bytes(&mut value, node.value.as_slice());
            assert(value@ =~= node.value@);
            let data = SnapshotNodeData {
                value,
                version: node.metadata.version,
                create_command_id: node.metadata.create_command_id,
                modify_command_id: node.metadata.modify_command_id,
                kind: node.metadata.kind,
            };
            let ghost before = nodes@;
            let ghost old_snap = snapshot_node_entries(nodes);
            let ghost k = key@;
            let ghost dv = data@;
            proof {
                let e = self.entries();
                assert(e[i as int].0 == k);
                assert(e[i as int].1 == node@);
                lemma_key_pos(before, k);
                if key_pos(before, k) >= 0 {
                    let q = key_pos(before, k);
                    assert(snapshot_node_entries(nodes)[q].0 == before[q].0);
                    assert(snapshot_node_entries(nodes).len() == i);
                    assert(q < i);
                    assert(e.take(i as int)[q] == e[q]);
                    assert(snapshot_of_entries(e.take(i as int))[q].0 == e[q].0);
                    assert(e[q].0 == e[i as int].0);
                }
            }
            nodes.insert(key.clone(), data);
            proof {
                let e = self.entries();
                assert(nodes@ == before.push((k, data)));
                assert(data@ =~= data_of_node(node@));
                assert(e.take(i + 1) =~= e.take(i as int).push(e[i as int]));
                assert(snapshot_node_entries(nodes) =~= old_snap.push((k, dv)));
                assert(snapshot_of_entries(e.take(i + 1)) =~= snapshot_of_entries(e.take(i as int)).push((e[i as int].0, data_of_node(e[i as int].1))));
                assert(snapshot_node_entries(nodes) =~= snapshot_of_entries(e.take(i + 1)));
            }
            i = i + 1;
        }
        assert(self.entries().take(self.nodes@.len() as int) =~= self.entries());
        TreeKvSnapshot { nodes, max_command_id: self.command_id }
    }

    /// Replaces every node with the nodes of a snapshot (paths parsed
    /// again, ACLs emptied) and takes over its command id.
    pub fn restore_from_snapshot(&mut self, snapshot: &TreeKvSnapshot)
        ensures
            final(self).entries() == restored_entries(snapshot_node_entries(snapshot.nodes)),
            final(self).command_id_spec() == snapshot.max_command_id,
            final(self).default_permissions() == old(self).default_permissions(),
    {
        let _old_nodes = self.take_nodes();
        let mut nodes: StrMap<KvNode> = StrMap::new();
        let ghost src = snapshot_node_entries(snapshot.nodes);
        let mut i: usize = 0;
        assert(view_entries(nodes@) =~= restored_entries(src.take(0)));
        while i < snapshot.nodes.len()
            invariant
                i <= snapshot.nodes@.len(),
                src == snapshot_node_entries(snapshot.nodes),
                src.len() == snapshot.nodes@.len(),
                view_entries(nodes@) == restored_entries(src.take(i as int)),
                forall|j: int| 0 <= j < nodes@.len() ==> is_normal_path(#[trigger] nodes@[j].0),
            decreases snapshot.nodes@.len() - i,
        {
            let key = snapshot.nodes.key_at(i);
            let data = snapshot.nodes.value_at(i);
            proof {
                assert(src.take(i + 1).drop_last() =~= src.take(i as int));
                assert(src.take(i + 1).last() == src[i as int]);
                assert(src[i as int] == (key@, data@));
            }
            match NodePath::parse(key.as_str()) {
                Ok(parsed) => {
                    let mut value: Vec<u8> = Vec::new();
                    put_bytes(&mut value, data.value.as_slice());
                    assert(value@ =~= data.value@);
                    let node = KvNode {
                        value,
                        metadata: NodeMetadata {
                            version: data.version,
                            create_command_id: data.create_command_id,
                            modify_command_id: data.modify_command_id,
                            kind: data.kind,
                        },
                        acl: Acl::empty(),
                    };
                    let ghost before = nodes@;
                    proof {
                        use_type_invariant(&parsed);
                        lemma_view_insert(before, parsed@, node);
                        lemma_key_pos(before, parsed@);
                        assert(node@ =~= node_of_data(data@));
                    }
                    nodes.insert(parsed.to_path_string(), node);
                    proof {
                        assert forall|j: int| 0 <= j < nodes@.len() implies is_normal_path(#[trigger] nodes@[j].0) by {
                            if key_pos(before, parsed@) >= 0 {
                                assert(nodes@[j].0 == before[j].0);
                            } else if j < before.len() {
                                assert(nodes@[j] == before[j]);
                            }
                        }
                    }
                },
                Err(_) => {},
            }
            i = i + 1;
        }
        assert(src.take(snapshot.nodes@.len() as int) =~= src);
        self.nodes = nodes;
        self.command_id = snapshot.max_command_id;
    }

    fn child_test(prefix: &Vec<char>, parent: &Vec<char>, p: &Vec<char>) -> (r: bool)
        ensures
            r == (prefix@.is_prefix_of(p@) && p@ != parent@ && !p@.skip(prefix@.len() as int).contains('/')),
    {
        if prefix.len() > p.len() {
            return false;
        }
        let mut i: usize = 0;
        while i < prefix.len()
            invariant
                prefix@.len() <= p@.len(),
                i <= prefix@.len(),
                forall|j: int| 0 <= j < i ==> prefix@[j] == p@[j],
            decreases prefix@.len() - i,
        {
            if prefix[i] != p[i] {
                return false;
            }
            i = i + 1;
        }
        assert(prefix@.is_prefix_of(p@)) by {
            assert(p@.subrange(0, prefix@.len() as int) =~= prefix@);
        }
        if chars_equal(p, parent) {
            return false;
        }
        let mut k: usize = prefix.len();
        while k < p.len()
            invariant
                prefix@.len() <= k <= p@.len(),
                forall|j: int| prefix@.len() <= j < k ==> p@[j] != '/',
            decreases p@.len() - k,
        {
            if p[k] == '/' {
                assert(p@.skip(prefix@.len() as int)[k - prefix@.len()] == '/');
                return false;
            }
            k = k + 1;
        }
        assert(!p@.skip(prefix@.len() as int).contains('/')) by {
            if p@.skip(prefix@.len() as int).contains('/') {
                let j = choose|j: int| 0 <= j < p@.skip(prefix@.len() as int).len() && p@.skip(prefix@.len() as int)[j] == '/';
                assert(p@[j + prefix@.len()] == '/');
            }
        }
        true
    }
}

/// Node data as stored in a snapshot.
#[derive(Debug)]
pub struct SnapshotNodeData {
    pub value: Vec<u8>,
    pub version: u64,
    pub create_command_id: CommandId,
    pub modify_command_id: CommandId,
    pub kind: NodeKind,
}

/// The mathematical content of snapshot node data.
#[verifier::ext_equal]
pub struct SnapshotNodeDataView {
    pub value: Seq<u8>,
    pub version: u64,
    pub create_command_id: CommandId,
    pub modify_command_id: CommandId,
    pub kind: NodeKind,
}

impl View for SnapshotNodeData {
    type V = SnapshotNodeDataView;

    open spec fn view(&self) -> SnapshotNodeDataView {
        SnapshotNodeDataView {
            value: self.value@,
            version: self.version,
            create_command_id: self.create_command_id,
            modify_command_id: self.modify_command_id,
            kind: self.kind,
        }
    }
}

/// A snapshot of the tree: node data by path text, and the last command id.
#[derive(Debug)]
pub struct TreeKvSnapshot {
    pub nodes: StrMap<SnapshotNodeData>,
    pub max_command_id: CommandId,
}

/// Snapshot entries by their views.
pub open spec fn snapshot_node_entries(m: StrMap<SnapshotNodeData>) -> Seq<(Seq<char>, SnapshotNodeDataView)> {
    m@.map_values(|p: (Seq<char>, SnapshotNodeData)| (p.0, p.1@))
}

/// The snapshot data of a node (its ACL is not kept).
pub open spec fn data_of_node(n: KvNodeView) -> SnapshotNodeDataView {
    SnapshotNodeDataView {
        value: n.value,
        version: n.metadata.version,
        create_command_id: n.metadata.create_command_id,
        modify_command_id: n.metadata.modify_command_id,
        kind: n.metadata.kind,
    }
}

/// The node restored from snapshot data, with an empty ACL.
pub open spec fn node_of_data(d: SnapshotNodeDataView) -> KvNodeView {
    KvNodeView {
        value: d.value,
        metadata: NodeMetadata {
            version: d.version,
            create_command_id: d.create_command_id,
            modify_command_id: d.modify_command_id,
            kind: d.kind,
        },
        acl: Seq::empty(),
    }
}

/// The snapshot entries of tree nodes, in order.
pub open spec fn snapshot_of_entries(e: Seq<(Seq<char>, KvNodeView)>) -> Seq<(Seq<char>, SnapshotNodeDataView)> {
    e.map_values(|p: (Seq<char>, KvNodeView)| (p.0, data_of_node(p.1)))
}

/// The nodes restored from snapshot entries: each path is parsed, paths
/// with a `..` segment are skipped, and the rest are inserted in order
/// under their normal form.
pub open spec fn restored_entries(s: Seq<(Seq<char>, SnapshotNodeDataView)>) -> Seq<(Seq<char>, KvNodeView)>
    decreases s.len(),
{
    if s.len() == 0 {
        Seq::empty()
    } else {
        let prev = restored_entries(s.drop_last());
        if has_parent_segment(s.last().0) {
            prev
        } else {
            entries_insert(prev, normalize_path(s.last().0), node_of_data(s.last().1))
        }
    }
}

/// Nodes with their ACLs emptied.
pub open spec fn without_acls(e: Seq<(Seq<char>, KvNodeView)>) -> Seq<(Seq<char>, KvNodeView)> {
    e.map_values(|p: (Seq<char>, KvNodeView)| (p.0, KvNodeView { acl: Seq::empty(), ..p.1 }))
}

/// Restoring a snapshot of the tree gives back every node, in order, with
/// an empty ACL.
pub proof fn lemma_snapshot_restore_round_trip(e: Seq<(Seq<char>, KvNodeView)>)
    requires
        keys_unique(e),
        forall|i: int| 0 <= i < e.len() ==> is_normal_path(#[trigger] e[i].0),
    ensures
        restored_entries(snapshot_of_entries(e)) == without_acls(e),
    decreases e.len(),
{
    if e.len() > 0 {
        let d = e.drop_last();
        assert(keys_unique(d)) by {
            assert forall|i: int, j: int| 0 <= i < d.len() && 0 <= j < d.len() && i != j implies (#[trigger] d[i]).0 != (#[trigger] d[j]).0 by {
                assert(d[i] == e[i] && d[j] == e[j]);
            }
        }
        assert forall|i: int| 0 <= i < d.len() implies is_normal_path(#[trigger] d[i].0) by {
            assert(d[i] == e[i]);
        }
        lemma_snapshot_restore_round_trip(d);
        let s = snapshot_of_entries(e);
        assert(s.drop_last() =~= snapshot_of_entries(d));
        let k = e.last().0;
        assert(is_normal_path(e[e.len() - 1].0));
        assert(s.last() == (k, data_of_node(e.last().1)));
        let w = without_acls(d);
        lemma_key_pos(w, k);
        if key_pos(w, k) >= 0 {
            let q = key_pos(w, k);
            assert(w[q].0 == d[q].0);
            assert(e[q].0 == e[e.len() - 1].0);
        }
        assert(node_of_data(data_of_node(e.last().1)) =~= KvNodeView { acl: Seq::empty(), ..e.last().1 });
        assert(without_acls(e) =~= w.push((k, KvNodeView { acl: Seq::empty(), ..e.last().1 })));
    } else {
        assert(without_acls(e) =~= Seq::<(Seq<char>, KvNodeView)>::empty());
    }
}

/// A node created at a free path reads back as the fresh node; every other
/// path reads as before.
pub proof fn lemma_create_then_read(e: Seq<(Seq<char>, KvNodeView)>, path: Seq<char>, node: KvNodeView, other: Seq<char>)
    requires
        keys_unique(e),
        lookup(e, path) is None,
    ensures
        lookup(e.push((path, node)), path) == Some(node),
        other != path ==> lookup(e.push((path, node)), other) == lookup(e, other),
        keys_unique(e.push((path, node))),
{
    lemma_key_pos(e, path);
    lemma_insert_unique(e, path, node);
    assert(entries_insert(e, path, node) == e.push((path, node)));
}

/// After an update the path reads back the written node; every other path
/// reads as before.
pub proof fn lemma_write_then_read(e: Seq<(Seq<char>, KvNodeView)>, path: Seq<char>, node: KvNodeView, other: Seq<char>)
    requires
        keys_unique(e),
    ensures
        lookup(entries_insert(e, path, node), path) == Some(node),
        other != path ==> lookup(entries_insert(e, path, node), other) == lookup(e, other),
{
    lemma_insert_unique(e, path, node);
}

/// After a delete the path reads as missing; every other path reads as
/// before.
pub proof fn lemma_delete_then_read(e: Seq<(Seq<char>, KvNodeView)>, path: Seq<char>, other: Seq<char>)
    requires
        keys_unique(e),
    ensures
        lookup(entries_remove(e, path), path) is None,
        other != path ==> lookup(entries_remove(e, path), other) == lookup(e, other),
{
    lemma_remove_unique(e, path);
}

proof fn lemma_view_unique(e: Seq<(Seq<char>, KvNode)>)
    requires
        keys_unique(e),
    ensures
        keys_unique(view_entries(e)),
{
    assert forall|i: int, j: int| 0 <= i < view_entries(e).len() && 0 <= j < view_entries(e).len() && i != j
        implies (#[trigger] view_entries(e)[i]).0 != (#[trigger] view_entries(e)[j]).0 by {
        assert(view_entries(e)[i].0 == e[i].0);
        assert(view_entries(e)[j].0 == e[j].0);
    }
}

} // verus!
