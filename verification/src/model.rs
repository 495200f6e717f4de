//! Core data model: normalised node paths, node kinds and metadata,
//! node records and session leases.
use vstd::prelude::*;

use crate::acl::Acl;
use crate::text::{chars_of, push_char, push_chars};

verus! {

/// Identifier of a state-machine command.
pub type CommandId = u64;

/// Identifier of a client session.
pub type SessionId = u64;

/// The input with every backslash turned into a forward slash.
pub open spec fn replace_backslashes(s: Seq<char>) -> Seq<char> {
    s.map_values(|c: char| if c == '\\' { '/' } else { c })
}

/// The pieces of `s` between forward slashes, empty pieces included
/// (`"a//b"` gives `"a"`, `""`, `"b"`; `""` gives one empty piece).
pub open spec fn split_slash(s: Seq<char>) -> Seq<Seq<char>>
    decreases s.len(),
{
    if s.len() == 0 {
        seq![Seq::<char>::empty()]
    } else {
        let prev = split_slash(s.drop_last());
        if s.last() == '/' {
            prev.push(Seq::<char>::empty())
        } else {
            prev.update(prev.len() - 1, prev.last().push(s.last()))
        }
    }
}

/// The segment `.` (current directory).
pub open spec fn dot() -> Seq<char> {
    seq!['.']
}

/// The segment `..` (parent directory).
pub open spec fn dot_dot() -> Seq<char> {
    seq!['.', '.']
}

/// A segment that survives normalisation: not empty and not `.`.
pub open spec fn is_kept_segment(seg: Seq<char>) -> bool {
    seg.len() > 0 && seg != dot()
}

/// The segments that survive normalisation, in order.
pub open spec fn kept_segments(segs: Seq<Seq<char>>) -> Seq<Seq<char>>
    decreases segs.len(),
{
    if segs.len() == 0 {
        Seq::empty()
    } else {
        let prev = kept_segments(segs.drop_last());
        if is_kept_segment(segs.last()) {
            prev.push(segs.last())
        } else {
            prev
        }
    }
}

/// Each segment preceded by a slash, all concatenated.
pub open spec fn slash_join(segs: Seq<Seq<char>>) -> Seq<char>
    decreases segs.len(),
{
    if segs.len() == 0 {
        Seq::empty()
    } else {
        slash_join(segs.drop_last()) + seq!['/'] + segs.last()
    }
}

/// The segments of a raw path, after backslashes became slashes.
pub open spec fn raw_segments(raw: Seq<char>) -> Seq<Seq<char>> {
    split_slash(replace_backslashes(raw))
}

/// Whether a raw path has a `..` segment.
pub open spec fn has_parent_segment(raw: Seq<char>) -> bool {
    exists|i: int| 0 <= i < raw_segments(raw).len() && #[trigger] raw_segments(raw)[i] == dot_dot()
}

/// The normal form of a raw path: its kept segments, each after a slash;
/// `/` when none is kept.
pub open spec fn normalize_path(raw: Seq<char>) -> Seq<char> {
    let kept = kept_segments(raw_segments(raw));
    if kept.len() == 0 {
        seq!['/']
    } else {
        slash_join(kept)
    }
}

proof fn lemma_split_slash_nonempty(s: Seq<char>)
    ensures
        split_slash(s).len() >= 1,
    decreases s.len(),
{
    if s.len() > 0 {
        lemma_split_slash_nonempty(s.drop_last());
    }
}

/// A path already in normal form: parsing it gives it back.
pub open spec fn is_normal_path(p: Seq<char>) -> bool {
    !has_parent_segment(p) && normalize_path(p) == p
}

/// Every piece of a split is free of slashes.
proof fn lemma_split_pieces_no_slash(s: Seq<char>)
    ensures
        forall|j: int| 0 <= j < split_slash(s).len() ==> !(#[trigger] split_slash(s)[j]).contains('/'),
    decreases s.len(),
{
    lemma_split_slash_nonempty(s);
    if s.len() > 0 {
        lemma_split_pieces_no_slash(s.drop_last());
        lemma_split_slash_nonempty(s.drop_last());
        let prev = split_slash(s.drop_last());
        if s.last() != '/' {
            let q = prev.last().push(s.last());
            assert(!q.contains('/')) by {
                assert(!prev[prev.len() - 1].contains('/'));
                if q.contains('/') {
                    let k = choose|k: int| 0 <= k < q.len() && q[k] == '/';
                    assert(prev.last()[k] == '/');
                }
            }
            assert forall|j: int| 0 <= j < split_slash(s).len() implies !(#[trigger] split_slash(s)[j]).contains('/') by {
                if j < prev.len() - 1 {
                    assert(split_slash(s)[j] == prev[j]);
                }
            }
        } else {
            assert forall|j: int| 0 <= j < split_slash(s).len() implies !(#[trigger] split_slash(s)[j]).contains('/') by {
                if j < prev.len() {
                    assert(split_slash(s)[j] == prev[j]);
                } else {
                    assert(split_slash(s)[j] =~= Seq::<char>::empty());
                }
            }
        }
    }
}

/// Every piece of a split of `s` consists of characters of `s`.
proof fn lemma_split_pieces_chars(s: Seq<char>, c: char)
    requires
        !s.contains(c),
    ensures
        forall|j: int| 0 <= j < split_slash(s).len() ==> !(#[trigger] split_slash(s)[j]).contains(c),
    decreases s.len(),
{
    lemma_split_slash_nonempty(s);
    if s.len() > 0 {
        assert(!s.drop_last().contains(c)) by {
            if s.drop_last().contains(c) {
                let k = choose|k: int| 0 <= k < s.len() - 1 && s.drop_last()[k] == c;
                assert(s[k] == c);
            }
        }
        lemma_split_pieces_chars(s.drop_last(), c);
        lemma_split_slash_nonempty(s.drop_last());
        let prev = split_slash(s.drop_last());
        assert(s.last() != c) by {
            assert(s[s.len() - 1] == s.last());
        }
        if s.last() != '/' {
            let q = prev.last().push(s.last());
            assert(!q.contains(c)) by {
                assert(!prev[prev.len() - 1].contains(c));
                if q.contains(c) {
                    let k = choose|k: int| 0 <= k < q.len() && q[k] == c;
                    assert(prev.last()[k] == c);
                }
            }
            assert forall|j: int| 0 <= j < split_slash(s).len() implies !(#[trigger] split_slash(s)[j]).contains(c) by {
                if j < prev.len() - 1 {
                    assert(split_slash(s)[j] == prev[j]);
                }
            }
        } else {
            assert forall|j: int| 0 <= j < split_slash(s).len() implies !(#[trigger] split_slash(s)[j]).contains(c) by {
                if j < prev.len() {
                    assert(split_slash(s)[j] == prev[j]);
                } else {
                    assert(split_slash(s)[j] =~= Seq::<char>::empty());
                }
            }
        }
    }
}

/// Kept segments are segments of the split that are kept.
proof fn lemma_kept_members(segs: Seq<Seq<char>>)
    ensures
        forall|j: int| 0 <= j < kept_segments(segs).len() ==> is_kept_segment(#[trigger] kept_segments(segs)[j])
            && segs.contains(kept_segments(segs)[j]),
    decreases segs.len(),
{
    if segs.len() > 0 {
        lemma_kept_members(segs.drop_last());
        let prev = kept_segments(segs.drop_last());
        assert forall|j: int| 0 <= j < kept_segments(segs).len() implies is_kept_segment(#[trigger] kept_segments(segs)[j])
            && segs.contains(kept_segments(segs)[j]) by {
            if j < prev.len() {
                assert(kept_segments(segs)[j] == prev[j]);
                let k = choose|k: int| 0 <= k < segs.len() - 1 && segs.drop_last()[k] == prev[j];
                assert(segs[k] == prev[j]);
            } else {
                assert(kept_segments(segs)[j] == segs.last());
                assert(segs[segs.len() - 1] == segs.last());
            }
        }
    }
}

/// Splitting after appending text without slashes extends the last piece.
proof fn lemma_split_append(s: Seq<char>, t: Seq<char>)
    requires
        !t.contains('/'),
    ensures
        split_slash(s + t) == split_slash(s).update(split_slash(s).len() - 1, split_slash(s).last() + t),
    decreases t.len(),
{
    lemma_split_slash_nonempty(s);
    if t.len() == 0 {
        assert(s + t =~= s);
        assert(split_slash(s).last() + t =~= split_slash(s).last());
        assert(split_slash(s).update(split_slash(s).len() - 1, split_slash(s).last()) =~= split_slash(s));
    } else {
        let t2 = t.drop_last();
        assert(!t2.contains('/')) by {
            if t2.contains('/') {
                let k = choose|k: int| 0 <= k < t2.len() && t2[k] == '/';
                assert(t[k] == '/');
            }
        }
        lemma_split_append(s, t2);
        assert((s + t).drop_last() =~= s + t2);
        assert((s + t).last() == t.last());
        assert(t.last() != '/') by {
            assert(t[t.len() - 1] == t.last());
        }
        let a = split_slash(s);
        let b = split_slash(s + t2);
        lemma_split_slash_nonempty(s + t2);
        assert(split_slash(s + t) == b.update(b.len() - 1, b.last().push(t.last())));
        assert((a.last() + t2).push(t.last()) =~= a.last() + t);
        assert(split_slash(s + t) =~= a.update(a.len() - 1, a.last() + t));
    }
}

/// Splitting the slash-join of segments without slashes gives an empty
/// piece followed by the segments.
proof fn lemma_split_slash_join(k: Seq<Seq<char>>)
    requires
        forall|j: int| 0 <= j < k.len() ==> !(#[trigger] k[j]).contains('/'),
    ensures
        split_slash(slash_join(k)) == seq![Seq::<char>::empty()] + k,
    decreases k.len(),
{
    if k.len() == 0 {
        assert(slash_join(k) =~= Seq::<char>::empty());
        assert(seq![Seq::<char>::empty()] + k =~= seq![Seq::<char>::empty()]);
    } else {
        let k2 = k.drop_last();
        assert forall|j: int| 0 <= j < k2.len() implies !(#[trigger] k2[j]).contains('/') by {
            assert(k2[j] == k[j]);
        }
        lemma_split_slash_join(k2);
        let a = slash_join(k2);
        let a2 = a.push('/');
        assert(a2.drop_last() =~= a);
        lemma_split_slash_nonempty(a);
        assert(split_slash(a2) == split_slash(a).push(Seq::<char>::empty()));
        assert(!k.last().contains('/')) by {
            assert(k[k.len() - 1] == k.last());
        }
        lemma_split_append(a2, k.last());
        assert(slash_join(k) =~= a2 + k.last());
        let sp = split_slash(a2);
        assert(sp.last() + k.last() =~= k.last());
        assert(sp.update(sp.len() - 1, sp.last() + k.last()) =~= seq![Seq::<char>::empty()] + k);
    }
}

/// Keeping the segments of an empty piece followed by kept segments gives
/// the segments.
proof fn lemma_kept_of_join(k: Seq<Seq<char>>)
    requires
        forall|j: int| 0 <= j < k.len() ==> is_kept_segment(#[trigger] k[j]),
    ensures
        kept_segments(seq![Seq::<char>::empty()] + k) == k,
    decreases k.len(),
{
    let s = seq![Seq::<char>::empty()] + k;
    if k.len() == 0 {
        assert(s.drop_last() =~= Seq::<Seq<char>>::empty());
        assert(kept_segments(s.drop_last()) =~= Seq::<Seq<char>>::empty());
        assert(s.last() =~= Seq::<char>::empty());
        assert(!is_kept_segment(s.last()));
        assert(kept_segments(s) =~= k);
    } else {
        let k2 = k.drop_last();
        assert forall|j: int| 0 <= j < k2.len() implies is_kept_segment(#[trigger] k2[j]) by {
            assert(k2[j] == k[j]);
        }
        lemma_kept_of_join(k2);
        assert(s.drop_last() =~= seq![Seq::<char>::empty()] + k2);
        assert(s.last() == k.last());
        assert(is_kept_segment(k[k.len() - 1]));
        assert(kept_segments(s) =~= k2.push(k.last()));
        assert(k2.push(k.last()) =~= k);
    }
}

/// The characters of a slash-join are slashes or characters of segments.
proof fn lemma_slash_join_no_char(k: Seq<Seq<char>>, c: char)
    requires
        c != '/',
        forall|j: int| 0 <= j < k.len() ==> !(#[trigger] k[j]).contains(c),
    ensures
        !slash_join(k).contains(c),
    decreases k.len(),
{
    if k.len() > 0 {
        let k2 = k.drop_last();
        assert forall|j: int| 0 <= j < k2.len() implies !(#[trigger] k2[j]).contains(c) by {
            assert(k2[j] == k[j]);
        }
        lemma_slash_join_no_char(k2, c);
        let a = slash_join(k2);
        let last = k.last();
        assert(!last.contains(c)) by {
            assert(k[k.len() - 1] == last);
        }
        let j = slash_join(k);
        assert(j =~= a + seq!['/'] + last);
        if j.contains(c) {
            let i = choose|i: int| 0 <= i < j.len() && j[i] == c;
            if i < a.len() {
                assert(a[i] == c);
            } else if i == a.len() {
            } else {
                assert(last[i - a.len() - 1] == c);
            }
        }
    }
}

/// Replacing backslashes leaves no backslash and changes nothing in text
/// without one.
proof fn lemma_replace_backslashes(s: Seq<char>)
    ensures
        !replace_backslashes(s).contains('\\'),
        !s.contains('\\') ==> replace_backslashes(s) == s,
{
    let r = replace_backslashes(s);
    if r.contains('\\') {
        let i = choose|i: int| 0 <= i < r.len() && r[i] == '\\';
    }
    if !s.contains('\\') {
        assert forall|i: int| 0 <= i < s.len() implies r[i] == s[i] by {
            if s[i] == '\\' {
                assert(s.contains('\\'));
            }
        }
        assert(r =~= s);
    }
}

/// The shape of a normalised path: `/` alone, or `/` before each of
/// one or more segments that are not empty, `.` or `..` and hold no `/`
/// (so there is no `//` and no trailing `/`); no backslash anywhere.
pub proof fn lemma_normal_form(raw: Seq<char>)
    requires
        !has_parent_segment(raw),
    ensures
        !normalize_path(raw).contains('\\'),
        normalize_path(raw) == seq!['/'] || exists|k: Seq<Seq<char>>| #![trigger slash_join(k)]
            k.len() > 0 && normalize_path(raw) == slash_join(k)
            && forall|j: int| 0 <= j < k.len() ==> is_kept_segment(#[trigger] k[j])
                && !k[j].contains('/') && k[j] != dot_dot(),
{
    let rep = replace_backslashes(raw);
    let segs = split_slash(rep);
    let k = kept_segments(segs);
    lemma_replace_backslashes(raw);
    lemma_split_pieces_no_slash(rep);
    lemma_split_pieces_chars(rep, '\\');
    lemma_kept_members(segs);
    assert forall|j: int| 0 <= j < k.len() implies !(#[trigger] k[j]).contains('/') && !k[j].contains('\\')
        && k[j] != dot_dot() && is_kept_segment(k[j]) by {
        let i = choose|i: int| 0 <= i < segs.len() && segs[i] == k[j];
        assert(!segs[i].contains('/'));
        assert(!segs[i].contains('\\'));
        assert(raw_segments(raw)[i] != dot_dot());
    }
    if k.len() == 0 {
        let p = seq!['/'];
        assert(!p.contains('\\')) by {
            if p.contains('\\') {
                let i = choose|i: int| 0 <= i < p.len() && p[i] == '\\';
            }
        }
    } else {
        lemma_slash_join_no_char(k, '\\');
        assert(slash_join(k) == normalize_path(raw));
    }
}

/// Normalisation is idempotent: a normalised path is already normal.
pub proof fn lemma_normalize_idempotent(raw: Seq<char>)
    requires
        !has_parent_segment(raw),
    ensures
        is_normal_path(normalize_path(raw)),
{
    let rep = replace_backslashes(raw);
    let segs = split_slash(rep);
    let k = kept_segments(segs);
    lemma_replace_backslashes(raw);
    lemma_split_pieces_no_slash(rep);
    lemma_split_pieces_chars(rep, '\\');
    lemma_kept_members(segs);
    assert forall|j: int| 0 <= j < k.len() implies !(#[trigger] k[j]).contains('/') && !k[j].contains('\\')
        && k[j] != dot_dot() && is_kept_segment(k[j]) by {
        let i = choose|i: int| 0 <= i < segs.len() && segs[i] == k[j];
        assert(!segs[i].contains('/'));
        assert(!segs[i].contains('\\'));
        assert(raw_segments(raw)[i] != dot_dot());
    }
    if k.len() == 0 {
        let p = seq!['/'];
        assert(!p.contains('\\')) by {
            if p.contains('\\') {
                let i = choose|i: int| 0 <= i < p.len() && p[i] == '\\';
            }
        }
        lemma_replace_backslashes(p);
        assert(p =~= Seq::<char>::empty().push('/'));
        assert(p.drop_last() =~= Seq::<char>::empty());
        assert(split_slash(Seq::<char>::empty()) =~= seq![Seq::<char>::empty()]);
        assert(p.last() == '/');
        assert(split_slash(p) =~= seq![Seq::<char>::empty()].push(Seq::<char>::empty()));
        assert(split_slash(p) =~= seq![Seq::<char>::empty(), Seq::<char>::empty()]);
        let sp = split_slash(p);
        let one = seq![Seq::<char>::empty()];
        assert(sp.drop_last() =~= one);
        assert(one.drop_last() =~= Seq::<Seq<char>>::empty());
        assert(kept_segments(Seq::<Seq<char>>::empty()) =~= Seq::<Seq<char>>::empty());
        assert(one.last() =~= Seq::<char>::empty());
        assert(kept_segments(one) =~= Seq::<Seq<char>>::empty());
        assert(sp.last() =~= Seq::<char>::empty());
        assert(kept_segments(sp) =~= Seq::<Seq<char>>::empty());
        assert(!has_parent_segment(p)) by {
            assert forall|i: int| 0 <= i < raw_segments(p).len() implies #[trigger] raw_segments(p)[i] != dot_dot() by {
                assert(raw_segments(p)[i] =~= Seq::<char>::empty());
            }
        }
    } else {
        let s = slash_join(k);
        lemma_slash_join_no_char(k, '\\');
        lemma_replace_backslashes(s);
        lemma_split_slash_join(k);
        lemma_kept_of_join(k);
        assert(!has_parent_segment(s)) by {
            assert forall|i: int| 0 <= i < raw_segments(s).len() implies #[trigger] raw_segments(s)[i] != dot_dot() by {
                if i == 0 {
                    assert(raw_segments(s)[i] =~= Seq::<char>::empty());
                } else {
                    assert(raw_segments(s)[i] == k[i - 1]);
                }
            }
        }
    }
}

/// A node path in normal form: rooted at `/`, with `/` separators, no
/// empty, `.` or `..` segments.
#[derive(Debug, PartialEq, Eq)]
pub struct NodePath(String);

impl View for NodePath {
    type V = Seq<char>;

    closed spec fn view(&self) -> Seq<char> {
        self.0@
    }
}

impl Clone for NodePath {
    fn clone(&self) -> (r: NodePath)
        ensures
            r@ == self@,
    {
        proof { use_type_invariant(self); }
        NodePath(self.0.clone())
    }
}

/// Appends `/` followed by a segment to the path being built.
fn push_segment(out: &mut String, seg: &Vec<char>)
    ensures
        final(out)@ == old(out)@ + seq!['/'] + seg@,
{
    push_char(out, '/');
    push_chars(out, seg);
}

fn is_dot_dot_segment(seg: &Vec<char>) -> (r: bool)
    ensures
        r == (seg@ == dot_dot()),
{
    let r = seg.len() == 2 && seg[0] == '.' && seg[1] == '.';
    proof {
        if seg@.len() == 2 && seg@[0] == '.' && seg@[1] == '.' {
            assert(seg@ =~= dot_dot());
        }
    }
    r
}

fn is_kept(seg: &Vec<char>) -> (r: bool)
    ensures
        r == is_kept_segment(seg@),
{
    let r = seg.len() > 0 && !(seg.len() == 1 && seg[0] == '.');
    proof {
        if seg@.len() == 1 && seg@[0] == '.' {
            assert(seg@ =~= dot());
        }
    }
    r
}

impl NodePath {
    /// Every node path is in normal form.
    #[verifier::type_invariant]
    pub open spec fn is_normal(&self) -> bool {
        is_normal_path(self@)
    }

    /// A node path from text already in normal form.
    pub fn from_normal(s: String) -> (r: NodePath)
        requires
            is_normal_path(s@),
        ensures
            r@ == s@,
    {
        NodePath(s)
    }

    /// Parses and normalises a raw path: backslashes count as slashes,
    /// empty and `.` segments are dropped, and a `..` segment anywhere is
    /// refused.
    pub fn parse(raw: &str) -> (r: Result<NodePath, &'static str>)
        ensures
            match r {
                Ok(p) => !has_parent_segment(raw@) && p@ == normalize_path(raw@),
                Err(m) => has_parent_segment(raw@) && m@ == "parent path segments are not allowed"@,
            },
    {
        let cs = chars_of(raw);
        let ghost rep = replace_backslashes(cs@);
        let mut out = String::new();
        let mut cur: Vec<char> = Vec::new();
        let mut i: usize = 0;
        proof {
            assert(replace_backslashes(cs@.take(0)) =~= Seq::<char>::empty());
        }
        while i < cs.len()
            invariant
                i <= cs@.len(),
                cs@ == raw@,
                rep == replace_backslashes(cs@),
                cur@ == split_slash(rep.take(i as int)).last(),
                out@ == slash_join(kept_segments(split_slash(rep.take(i as int)).drop_last())),
                forall|j: int| 0 <= j < split_slash(rep.take(i as int)).len() - 1
                    ==> #[trigger] split_slash(rep.take(i as int))[j] != dot_dot(),
            decreases cs@.len() - i,
        {
            let ghost pre = rep.take(i as int);
            let ghost sp = split_slash(pre);
            proof {
                lemma_split_slash_nonempty(pre);
                assert(rep.take(i + 1) =~= pre.push(rep[i as int]));
                assert(rep.take(i + 1).drop_last() =~= pre);
            }
            let c = if cs[i] == '\\' { '/' } else { cs[i] };
            assert(c == rep[i as int]);
            if c == '/' {
                if is_dot_dot_segment(&cur) {
                    proof {
                        lemma_split_prefix(rep, i as int);
                        assert(raw_segments(raw@)[sp.len() - 1] == dot_dot());
                        assert(0 <= sp.len() - 1 < raw_segments(raw@).len());
                    }
                    return Err("parent path segments are not allowed");
                }
                if is_kept(&cur) {
                    push_segment(&mut out, &cur);
                    proof {
                        lemma_slash_join_push(kept_segments(sp.drop_last()), sp.last());
                    }
                }
                cur = Vec::new();
                proof {
                    let sp2 = split_slash(rep.take(i + 1));
                    assert(sp2 == sp.push(Seq::<char>::empty()));
                    assert(sp2.drop_last() =~= sp);
                    assert(sp2.last() =~= Seq::<char>::empty());
                    assert forall|j: int| 0 <= j < sp2.len() - 1 implies #[trigger] sp2[j] != dot_dot() by {
                        if j < sp.len() - 1 {
                            assert(sp2[j] == sp[j]);
                        } else {
                            assert(sp2[j] == sp.last());
                        }
                    }
                }
            } else {
                cur.push(c);
                proof {
                    let sp2 = split_slash(rep.take(i + 1));
                    assert(sp2 == sp.update(sp.len() - 1, sp.last().push(c)));
                    assert(sp2.drop_last() =~= sp.drop_last());
                    assert(sp2.last() == sp.last().push(c));
                    assert forall|j: int| 0 <= j < sp2.len() - 1 implies #[trigger] sp2[j] != dot_dot() by {
                        assert(sp2[j] == sp[j]);
                    }
                }
            }
            i = i + 1;
        }
        proof {
            assert(rep.take(cs@.len() as int) =~= rep);
            lemma_split_slash_nonempty(rep);
        }
        let ghost sp = split_slash(rep);
        if is_dot_dot_segment(&cur) {
            assert(raw_segments(raw@)[sp.len() - 1] == dot_dot());
            return Err("parent path segments are not allowed");
        }
        if is_kept(&cur) {
            push_segment(&mut out, &cur);
            proof {
                lemma_slash_join_push(kept_segments(sp.drop_last()), sp.last());
            }
        }
        proof {
            assert(sp.drop_last().push(sp.last()) =~= sp);
            let k = kept_segments(sp);
            assert(out@ == slash_join(k));
            if k.len() > 0 {
                lemma_slash_join_nonempty(k);
            }
            assert forall|j: int| 0 <= j < raw_segments(raw@).len() implies #[trigger] raw_segments(raw@)[j] != dot_dot() by {
                if j < sp.len() - 1 {
                    assert(raw_segments(raw@)[j] == split_slash(rep.take(cs@.len() as int))[j]);
                }
            }
        }
        let empty = out.as_str().is_empty();
        if empty {
            let mut root = String::new();
            push_char(&mut root, '/');
            assert(root@ =~= seq!['/']);
            proof { lemma_normalize_idempotent(raw@); }
            return Ok(NodePath(root));
        }
        proof { lemma_normalize_idempotent(raw@); }
        Ok(NodePath(out))
    }

    /// The normalised path text.
    pub fn as_str(&self) -> (r: &str)
        ensures
            r@ == self@,
            is_normal_path(r@),
    {
        proof { use_type_invariant(self); }
        self.0.as_str()
    }

    /// An owned copy of the normalised path text.
    pub fn to_path_string(&self) -> (r: String)
        ensures
            r@ == self@,
            is_normal_path(r@),
    {
        proof { use_type_invariant(self); }
        self.0.clone()
    }
}

/// Splitting a prefix agrees with splitting the whole on every piece but
/// the last one of the prefix.
proof fn lemma_split_prefix(s: Seq<char>, n: int)
    requires
        0 <= n <= s.len(),
    ensures
        split_slash(s.take(n)).len() <= split_slash(s).len(),
        n < s.len() && s[n] == '/' ==> split_slash(s.take(n)).len() < split_slash(s).len(),
        forall|j: int| 0 <= j < split_slash(s.take(n)).len() - 1
            ==> #[trigger] split_slash(s.take(n))[j] == split_slash(s)[j],
        n < s.len() && s[n] == '/' ==> split_slash(s.take(n)).last()
            == split_slash(s)[split_slash(s.take(n)).len() - 1],
    decreases s.len() - n,
{
    lemma_split_slash_nonempty(s.take(n));
    if n < s.len() {
        lemma_split_prefix(s, n + 1);
        lemma_split_slash_nonempty(s.take(n + 1));
        assert(s.take(n + 1).drop_last() =~= s.take(n));
        assert(s.take(n + 1).last() == s[n]);
        let a = split_slash(s.take(n));
        let b = split_slash(s.take(n + 1));
        let full = split_slash(s);
        if s[n] == '/' {
            assert(b == a.push(Seq::<char>::empty()));
            assert forall|j: int| 0 <= j < a.len() - 1 implies #[trigger] a[j] == full[j] by {
                assert(a[j] == b[j]);
            }
            assert(a.last() == b[a.len() - 1]);
        } else {
            assert(b == a.update(a.len() - 1, a.last().push(s[n])));
            assert forall|j: int| 0 <= j < a.len() - 1 implies #[trigger] a[j] == full[j] by {
                assert(a[j] == b[j]);
            }
        }
    } else {
        assert(s.take(n) =~= s);
    }
}

proof fn lemma_slash_join_push(k: Seq<Seq<char>>, x: Seq<char>)
    ensures
        slash_join(k.push(x)) == slash_join(k) + seq!['/'] + x,
{
    assert(k.push(x).drop_last() =~= k);
}

proof fn lemma_slash_join_nonempty(k: Seq<Seq<char>>)
    requires
        k.len() > 0,
    ensures
        slash_join(k).len() > 0,
{
}

/// How long a node lives and how its name is chosen.
#[derive(Debug, Clone, Copy, PartialEq, Eq, Structural)]
pub enum NodeKind {
    Persistent,
    Ephemeral,
    Sequential,
    EphemeralSequential,
}

/// Version and lineage of a node, counted in command ids.
#[derive(Debug, Clone, Copy, PartialEq, Eq, Structural)]
pub struct NodeMetadata {
    pub version: u64,
    pub create_command_id: CommandId,
    pub modify_command_id: CommandId,
    pub kind: NodeKind,
}

/// A complete node: path, value, metadata and access control.
#[derive(Debug, Clone)]
pub struct NodeRecord {
    pub path: NodePath,
    pub value: Vec<u8>,
    pub metadata: NodeMetadata,
    pub acl: Acl,
}

/// A session's lease.
#[derive(Debug, Clone, Copy, PartialEq, Eq, Structural)]
pub struct SessionLease {
    pub session_id: SessionId,
    pub timeout_ms: u64,
}

} // verus!
