//! Access control lists: permissions granted to subjects, with `*` as the
//! wildcard subject.
use vstd::prelude::*;

use crate::error::ErrorCode;
use crate::text::{chars_of, chars_equal};

verus! {

/// An action that can be performed on a node.
#[derive(Debug, Clone, Copy, PartialEq, Eq, Structural)]
pub enum Permission {
    Read,
    Write,
    Create,
    Delete,
    Admin,
}

/// One ACL rule: the permissions held by a subject (`*` matches anyone).
#[derive(Debug, Clone)]
pub struct AclEntry {
    pub subject: String,
    pub permissions: Vec<Permission>,
}

/// An access control list made of rules; permissions add up over all rules
/// that match a subject.
#[derive(Debug, Clone)]
pub struct Acl {
    pub entries: Vec<AclEntry>,
}

/// The wildcard subject `*`.
pub open spec fn wildcard_subject() -> Seq<char> {
    seq!['*']
}

/// Whether a rule grants `permission` to `subject`.
pub open spec fn entry_grants(entry: AclEntry, subject: Seq<char>, permission: Permission) -> bool {
    &&& (entry.subject@ == wildcard_subject() || entry.subject@ == subject)
    &&& entry.permissions@.contains(permission)
}

/// Whether an ACL allows `permission` to `subject`: an empty ACL allows
/// everything, otherwise some rule must grant it.
pub open spec fn acl_allows(entries: Seq<AclEntry>, subject: Seq<char>, permission: Permission) -> bool {
    entries.len() == 0 || exists|i: int| 0 <= i < entries.len() && entry_grants(#[trigger] entries[i], subject, permission)
}

/// Whether a permission occurs in a list of permissions.
pub fn permissions_contain(perms: &Vec<Permission>, permission: Permission) -> (r: bool)
    ensures
        r == perms@.contains(permission),
{
    let mut i: usize = 0;
    while i < perms.len()
        invariant
            i <= perms@.len(),
            forall|j: int| 0 <= j < i ==> perms@[j] != permission,
        decreases perms@.len() - i,
    {
        if perms[i] == permission {
            assert(perms@[i as int] == permission);
            return true;
        }
        i = i + 1;
    }
    false
}

impl Default for Acl {
    fn default() -> (r: Acl)
        ensures
            r.entries@.len() == 0,
    {
        Acl { entries: Vec::new() }
    }
}

impl Acl {
    /// The empty ACL, which allows every operation.
    pub fn empty() -> (r: Acl)
        ensures
            r.entries@.len() == 0,
    {
        Acl { entries: Vec::new() }
    }

    /// Whether `subject` holds `permission` under this ACL.
    pub fn allows(&self, subject: &str, permission: Permission) -> (r: bool)
        ensures
            r == acl_allows(self.entries@, subject@, permission),
    {
        if self.entries.len() == 0 {
            return true;
        }
        let subject_chars = chars_of(subject);
        let star: Vec<char> = vec!['*'];
        let mut i: usize = 0;
        while i < self.entries.len()
            invariant
                i <= self.entries@.len(),
                subject_chars@ == subject@,
                star@ == wildcard_subject(),
                forall|j: int| 0 <= j < i ==> !entry_grants(#[trigger] self.entries@[j], subject@, permission),
            decreases self.entries@.len() - i,
        {
            let entry = &self.entries[i];
            let entry_chars = chars_of(entry.subject.as_str());
            let matches = chars_equal(&entry_chars, &star) || chars_equal(&entry_chars, &subject_chars);
            if matches && permissions_contain(&entry.permissions, permission) {
                assert(entry_grants(self.entries@[i as int], subject@, permission));
                return true;
            }
            i = i + 1;
        }
        false
    }
}

/// Checks operations against node ACLs, with fallback permissions granted
/// to everybody when no rule matches.
#[derive(Debug, Clone)]
pub struct AclChecker {
    default_permissions: Vec<Permission>,
}

impl Default for AclChecker {
    fn default() -> (r: AclChecker)
        ensures
            r.default_permissions().len() == 0,
    {
        AclChecker { default_permissions: Vec::new() }
    }
}

impl AclChecker {
    /// The fallback permissions.
    pub closed spec fn default_permissions(&self) -> Seq<Permission> {
        self.default_permissions@
    }

    /// A checker with no fallback permissions.
    pub fn new() -> (r: AclChecker)
        ensures
            r.default_permissions().len() == 0,
    {
        AclChecker { default_permissions: Vec::new() }
    }

    /// The same checker with its fallback permissions replaced.
    pub fn with_default_permissions(self, permissions: Vec<Permission>) -> (r: AclChecker)
        ensures
            r.default_permissions() == permissions@,
    {
        let mut s = self;
        s.default_permissions = permissions;
        s
    }

    /// `Ok` when the ACL allows the operation or the fallback permissions
    /// hold it; `PermissionDenied` otherwise.
    pub fn check(&self, acl: &Acl, session_subject: &str, permission: Permission) -> (r: Result<(), ErrorCode>)
        ensures
            r is Ok <==> (acl_allows(acl.entries@, session_subject@, permission)
                || self.default_permissions().contains(permission)),
            r is Err ==> r == Err::<(), ErrorCode>(ErrorCode::PermissionDenied),
    {
        if acl.allows(session_subject, permission) {
            return Ok(());
        }
        if permissions_contain(&self.default_permissions, permission) {
            return Ok(());
        }
        Err(ErrorCode::PermissionDenied)
    }
}

/// Session metadata used for ACL checks: the session and its subject.
#[derive(Debug, Clone)]
pub struct SessionMeta {
    pub session_id: u64,
    pub subject: String,
}

impl SessionMeta {
    /// Builds session metadata.
    pub fn new(session_id: u64, subject: String) -> (r: SessionMeta)
        ensures
            r.session_id == session_id,
            r.subject@ == subject@,
    {
        SessionMeta { session_id, subject }
    }
}

/// Permissions add up over the rules: a rule for the subject, or for
/// everyone (`*`), that lists a permission grants it, whatever rules come
/// before or after it.
pub proof fn lemma_acl_rules_add_up(entries: Seq<AclEntry>, subject: Seq<char>, permission: Permission, i: int)
    requires
        0 <= i < entries.len(),
        entries[i].subject@ == seq!['*'] || entries[i].subject@ == subject,
        entries[i].permissions@.contains(permission),
    ensures
        acl_allows(entries, subject, permission),
{
    assert(entry_grants(entries[i], subject, permission));
}

/// A non-empty ACL refuses a permission that no rule for the subject, or
/// for everyone (`*`), lists.
pub proof fn lemma_acl_refuses_without_rule(entries: Seq<AclEntry>, subject: Seq<char>, permission: Permission)
    requires
        entries.len() > 0,
        forall|i: int| 0 <= i < entries.len() ==>
            !((#[trigger] entries[i]).subject@ == seq!['*'] || entries[i].subject@ == subject)
            || !entries[i].permissions@.contains(permission),
    ensures
        !acl_allows(entries, subject, permission),
{
}

/// The order of the rules does not matter.
pub proof fn lemma_acl_rule_order_irrelevant(a: Seq<AclEntry>, b: Seq<AclEntry>, subject: Seq<char>, permission: Permission)
    ensures
        acl_allows(a + b, subject, permission) == acl_allows(b + a, subject, permission),
{
    let ab = a + b;
    let ba = b + a;
    if acl_allows(ab, subject, permission) && ab.len() > 0 {
        let i = choose|i: int| 0 <= i < ab.len() && entry_grants(#[trigger] ab[i], subject, permission);
        if i < a.len() {
            assert(ba[b.len() + i] == ab[i]);
            lemma_acl_rules_add_up(ba, subject, permission, b.len() + i);
        } else {
            assert(ba[i - a.len()] == ab[i]);
            lemma_acl_rules_add_up(ba, subject, permission, i - a.len());
        }
    }
    if acl_allows(ba, subject, permission) && ba.len() > 0 {
        let i = choose|i: int| 0 <= i < ba.len() && entry_grants(#[trigger] ba[i], subject, permission);
        if i < b.len() {
            assert(ab[a.len() + i] == ba[i]);
            lemma_acl_rules_add_up(ab, subject, permission, a.len() + i);
        } else {
            assert(ab[i - b.len()] == ba[i]);
            lemma_acl_rules_add_up(ab, subject, permission, i - b.len());
        }
    }
}

} // verus!
