//! State snapshots: a generation number, the key/value state and string
//! metadata, with their binary encoding.
use vstd::prelude::*;
use vstd::bytes::*;
use vstd::utf8::{decode_utf8, encode_utf8, valid_utf8, encode_utf8_decode_utf8, encode_utf8_valid_utf8};

use crate::codec::{get_bytes, get_u32, get_u64, put_bytes, put_u32, put_u64, lemma_le_round_trips};
use crate::strmap::{StrMap, entries_insert, keys_unique, lemma_insert_unique, lemma_key_pos, key_pos};
use crate::text::{owned, string_from_utf8, utf8_bytes};
use crate::wal::u32_at;
use crate::layout::{StorageLayout, decimal_chars, decimal_digits, path_join, snapshot_name};
use crate::state::{RecoveryCursor, cursor_checked_bytes};
use crate::layout::crc32_of;
use crate::text::{chars_equal, chars_less, chars_lt, chars_of, lemma_chars_lt_order, skip_chars, starts_with_chars, string_from_chars};

verus! {

/// Errors of snapshot handling.
#[derive(Debug)]
pub enum SnapshotError {
    IoError(std::io::Error),
    DecodeError(String),
}

impl From<std::io::Error> for SnapshotError {
    fn from(err: std::io::Error) -> (r: SnapshotError) {
        SnapshotError::IoError(err)
    }
}

impl vstd::std_specs::convert::FromSpecImpl<std::io::Error> for SnapshotError {
    open spec fn obeys_from_spec() -> bool {
        true
    }

    open spec fn from_spec(v: std::io::Error) -> SnapshotError {
        SnapshotError::IoError(v)
    }
}

/// The complete state at one generation.
#[derive(Debug)]
pub struct Snapshot {
    pub generation: u64,
    pub state: StrMap<Vec<u8>>,
    pub metadata: StrMap<String>,
}

/// The state entries of a snapshot, keys and values as sequences.
pub open spec fn state_entries(m: StrMap<Vec<u8>>) -> Seq<(Seq<char>, Seq<u8>)> {
    m@.map_values(|p: (Seq<char>, Vec<u8>)| (p.0, p.1@))
}

/// The metadata entries of a snapshot, keys and values as sequences.
pub open spec fn metadata_entries(m: StrMap<String>) -> Seq<(Seq<char>, Seq<char>)> {
    m@.map_values(|p: (Seq<char>, String)| (p.0, p.1@))
}

/// One encoded state entry: key length, key bytes, value length, value.
pub open spec fn state_entry_bytes(k: Seq<char>, v: Seq<u8>) -> Seq<u8> {
    spec_u32_to_le_bytes(encode_utf8(k).len() as u32) + encode_utf8(k)
        + spec_u32_to_le_bytes(v.len() as u32) + v
}

/// The encoded state entries, in order.
pub open spec fn state_section(e: Seq<(Seq<char>, Seq<u8>)>) -> Seq<u8>
    decreases e.len(),
{
    if e.len() == 0 {
        Seq::empty()
    } else {
        state_section(e.drop_last()) + state_entry_bytes(e.last().0, e.last().1)
    }
}

/// The encoded metadata entries, in order; values are UTF-8 text.
pub open spec fn metadata_section(e: Seq<(Seq<char>, Seq<char>)>) -> Seq<u8>
    decreases e.len(),
{
    if e.len() == 0 {
        Seq::empty()
    } else {
        metadata_section(e.drop_last()) + state_entry_bytes(e.last().0, encode_utf8(e.last().1))
    }
}

/// The encoding of a snapshot: generation (8), state count (4), state
/// entries, metadata count (4), metadata entries.
pub open spec fn snapshot_bytes(
    generation: u64,
    state: Seq<(Seq<char>, Seq<u8>)>,
    metadata: Seq<(Seq<char>, Seq<char>)>,
) -> Seq<u8> {
    spec_u64_to_le_bytes(generation) + spec_u32_to_le_bytes(state.len() as u32) + state_section(state)
        + spec_u32_to_le_bytes(metadata.len() as u32) + metadata_section(metadata)
}

/// What reading a run of entries finds: the raw records and where they
/// end, a field that is not UTF-8 (`true` for a key, `false` for a value),
/// or a read past the end of the buffer.
pub enum Scan {
    Records { recs: Seq<(Seq<u8>, Seq<u8>)>, end: int },
    NotUtf8 { in_key: bool },
    OutOfBounds,
}

/// Reads `count` records (key length, key, value length, value) from
/// position `pos`. Keys must be UTF-8; values too when `text_values`.
pub open spec fn scan_records(b: Seq<u8>, pos: int, count: nat, text_values: bool) -> Scan
    decreases count,
{
    if count == 0 {
        Scan::Records { recs: Seq::empty(), end: pos }
    } else if pos + 4 > b.len() {
        Scan::OutOfBounds
    } else {
        let kl = u32_at(b, pos) as int;
        if pos + 4 + kl > b.len() {
            Scan::OutOfBounds
        } else if !valid_utf8(b.subrange(pos + 4, pos + 4 + kl)) {
            Scan::NotUtf8 { in_key: true }
        } else if pos + 8 + kl > b.len() {
            Scan::OutOfBounds
        } else {
            let vl = u32_at(b, pos + 4 + kl) as int;
            if pos + 8 + kl + vl > b.len() {
                Scan::OutOfBounds
            } else if text_values && !valid_utf8(b.subrange(pos + 8 + kl, pos + 8 + kl + vl)) {
                Scan::NotUtf8 { in_key: false }
            } else {
                let rec = (b.subrange(pos + 4, pos + 4 + kl), b.subrange(pos + 8 + kl, pos + 8 + kl + vl));
                match scan_records(b, pos + 8 + kl + vl, (count - 1) as nat, text_values) {
                    Scan::Records { recs, end } => Scan::Records { recs: seq![rec] + recs, end },
                    other => other,
                }
            }
        }
    }
}

/// Records read before a scan, put in front of what the scan finds.
pub open spec fn prepend_scan(done: Seq<(Seq<u8>, Seq<u8>)>, s: Scan) -> Scan {
    match s {
        Scan::Records { recs, end } => Scan::Records { recs: done + recs, end },
        other => other,
    }
}

/// Entries inserted one after another into an empty map.
pub open spec fn insert_all<V>(e: Seq<(Seq<char>, V)>) -> Seq<(Seq<char>, V)>
    decreases e.len(),
{
    if e.len() == 0 {
        Seq::empty()
    } else {
        entries_insert(insert_all(e.drop_last()), e.last().0, e.last().1)
    }
}

/// State records as key/value entries.
pub open spec fn state_records(recs: Seq<(Seq<u8>, Seq<u8>)>) -> Seq<(Seq<char>, Seq<u8>)> {
    recs.map_values(|r: (Seq<u8>, Seq<u8>)| (decode_utf8(r.0), r.1))
}

/// Metadata records as key/value text entries.
pub open spec fn metadata_records(recs: Seq<(Seq<u8>, Seq<u8>)>) -> Seq<(Seq<char>, Seq<char>)> {
    recs.map_values(|r: (Seq<u8>, Seq<u8>)| (decode_utf8(r.0), decode_utf8(r.1)))
}

/// The state section of an encoded snapshot.
pub open spec fn snapshot_state_scan(b: Seq<u8>) -> Scan {
    scan_records(b, 12, u32_at(b, 8) as nat, false)
}

/// The metadata section of an encoded snapshot, read after the state.
pub open spec fn snapshot_metadata_scan(b: Seq<u8>) -> Scan {
    match snapshot_state_scan(b) {
        Scan::Records { end, .. } => if end + 4 > b.len() {
            Scan::OutOfBounds
        } else {
            scan_records(b, end + 4, u32_at(b, end) as nat, true)
        },
        other => other,
    }
}

/// Whether decoding reads only inside the buffer.
pub open spec fn snapshot_in_bounds(b: Seq<u8>) -> bool {
    &&& b.len() >= 12
    &&& !(snapshot_state_scan(b) is OutOfBounds)
    &&& !(snapshot_metadata_scan(b) is OutOfBounds)
}

/// What decoding `b` gives: the first field that is not UTF-8 (named
/// `state_key`, `metadata_key` or `metadata_value`), or the snapshot with
/// the entries inserted in the order they were read.
pub open spec fn snapshot_decode_result(b: Seq<u8>, r: Result<Snapshot, SnapshotError>) -> bool {
    match snapshot_state_scan(b) {
        Scan::NotUtf8 { .. } => r matches Err(SnapshotError::DecodeError(m)) && m@ == "state_key"@,
        Scan::Records { recs: srecs, .. } => match snapshot_metadata_scan(b) {
            Scan::NotUtf8 { in_key } => r matches Err(SnapshotError::DecodeError(m))
                && m@ == (if in_key { "metadata_key"@ } else { "metadata_value"@ }),
            Scan::Records { recs: mrecs, .. } => r matches Ok(s)
                && s.generation == spec_u64_from_le_bytes(b.subrange(0, 8))
                && state_entries(s.state) == insert_all(state_records(srecs))
                && metadata_entries(s.metadata) == insert_all(metadata_records(mrecs)),
            Scan::OutOfBounds => false,
        },
        Scan::OutOfBounds => false,
    }
}

proof fn lemma_state_key_pos(e: Seq<(Seq<char>, Vec<u8>)>, k: Seq<char>)
    ensures
        key_pos(e.map_values(|p: (Seq<char>, Vec<u8>)| (p.0, p.1@)), k) == key_pos(e, k),
    decreases e.len(),
{
    let m = e.map_values(|p: (Seq<char>, Vec<u8>)| (p.0, p.1@));
    if e.len() > 0 {
        assert(m.drop_last() =~= e.drop_last().map_values(|p: (Seq<char>, Vec<u8>)| (p.0, p.1@)));
        lemma_state_key_pos(e.drop_last(), k);
    }
}

proof fn lemma_state_insert(e: Seq<(Seq<char>, Vec<u8>)>, k: Seq<char>, v: Vec<u8>)
    ensures
        entries_insert(e, k, v).map_values(|p: (Seq<char>, Vec<u8>)| (p.0, p.1@))
            == entries_insert(e.map_values(|p: (Seq<char>, Vec<u8>)| (p.0, p.1@)), k, v@),
{
    lemma_state_key_pos(e, k);
    lemma_key_pos(e, k);
    let m = e.map_values(|p: (Seq<char>, Vec<u8>)| (p.0, p.1@));
    let lhs = entries_insert(e, k, v).map_values(|p: (Seq<char>, Vec<u8>)| (p.0, p.1@));
    let rhs = entries_insert(m, k, v@);
    if key_pos(e, k) >= 0 {
        let q = key_pos(e, k);
        assert(rhs == m.update(q, (k, v@)));
        assert(lhs =~= m.update(q, (k, v@)));
    } else {
        assert(rhs == m.push((k, v@)));
        assert(lhs =~= m.push((k, v@)));
    }
}

proof fn lemma_metadata_key_pos(e: Seq<(Seq<char>, String)>, k: Seq<char>)
    ensures
        key_pos(e.map_values(|p: (Seq<char>, String)| (p.0, p.1@)), k) == key_pos(e, k),
    decreases e.len(),
{
    let m = e.map_values(|p: (Seq<char>, String)| (p.0, p.1@));
    if e.len() > 0 {
        assert(m.drop_last() =~= e.drop_last().map_values(|p: (Seq<char>, String)| (p.0, p.1@)));
        lemma_metadata_key_pos(e.drop_last(), k);
    }
}

proof fn lemma_metadata_insert(e: Seq<(Seq<char>, String)>, k: Seq<char>, v: String)
    ensures
        entries_insert(e, k, v).map_values(|p: (Seq<char>, String)| (p.0, p.1@))
            == entries_insert(e.map_values(|p: (Seq<char>, String)| (p.0, p.1@)), k, v@),
{
    lemma_metadata_key_pos(e, k);
    lemma_key_pos(e, k);
    let m = e.map_values(|p: (Seq<char>, String)| (p.0, p.1@));
    let lhs = entries_insert(e, k, v).map_values(|p: (Seq<char>, String)| (p.0, p.1@));
    let rhs = entries_insert(m, k, v@);
    if key_pos(e, k) >= 0 {
        let q = key_pos(e, k);
        assert(rhs == m.update(q, (k, v@)));
        assert(lhs =~= m.update(q, (k, v@)));
    } else {
        assert(rhs == m.push((k, v@)));
        assert(lhs =~= m.push((k, v@)));
    }
}

impl Snapshot {
    /// An empty snapshot of a generation.
    pub fn new(generation: u64) -> (r: Snapshot)
        ensures
            r.generation == generation,
            r.state@.len() == 0,
            r.metadata@.len() == 0,
    {
        Snapshot { generation, state: StrMap::new(), metadata: StrMap::new() }
    }

    /// A snapshot of existing state, without metadata.
    pub fn from_state(generation: u64, state: StrMap<Vec<u8>>) -> (r: Snapshot)
        ensures
            r.generation == generation,
            r.state@ == state@,
            r.metadata@.len() == 0,
    {
        Snapshot { generation, state, metadata: StrMap::new() }
    }

    /// Sets a metadata entry, replacing an existing value.
    pub fn set_metadata(&mut self, key: String, value: String)
        ensures
            final(self).generation == old(self).generation,
            final(self).state@ == old(self).state@,
            final(self).metadata@ == entries_insert(old(self).metadata@, key@, value),
    {
        self.metadata.insert(key, value);
    }

    /// The metadata value under `key`.
    pub fn get_metadata(&self, key: &str) -> (r: Option<&String>)
        ensures
            match r {
                Some(v) => crate::strmap::lookup(self.metadata@, key@) == Some(*v),
                None => crate::strmap::lookup(self.metadata@, key@) is None,
            },
    {
        self.metadata.get(key)
    }

    /// The binary encoding.
    pub fn encode(&self) -> (r: Vec<u8>)
        ensures
            r@ == snapshot_bytes(self.generation, state_entries(self.state), metadata_entries(self.metadata)),
    {
        let mut buf: Vec<u8> = Vec::new();
        put_u64(&mut buf, self.generation);
        let n = self.state.len();
        put_u32(&mut buf, n as u32);
        let ghost head = buf@;
        let mut i: usize = 0;
        while i < n
            invariant
                n == self.state@.len(),
                i <= n,
                buf@ == head + state_section(state_entries(self.state).take(i as int)),
            decreases n - i,
        {
            let key = self.state.key_at(i);
            let value = self.state.value_at(i);
            let kb = utf8_bytes(key);
            put_u32(&mut buf, kb.len() as u32);
            put_bytes(&mut buf, kb);
            put_u32(&mut buf, value.len() as u32);
            put_bytes(&mut buf, value.as_slice());
            proof {
                let e = state_entries(self.state);
                assert(e.take(i + 1).drop_last() =~= e.take(i as int));
                assert(e.take(i + 1).last() == e[i as int]);
            }
            i = i + 1;
        }
        proof {
            assert(state_entries(self.state).take(n as int) =~= state_entries(self.state));
        }
        let m = self.metadata.len();
        put_u32(&mut buf, m as u32);
        let ghost head2 = buf@;
        let mut j: usize = 0;
        while j < m
            invariant
                m == self.metadata@.len(),
                j <= m,
                buf@ == head2 + metadata_section(metadata_entries(self.metadata).take(j as int)),
            decreases m - j,
        {
            let key = self.metadata.key_at(j);
            let value = self.metadata.value_at(j);
            let kb = utf8_bytes(key);
            let vb = utf8_bytes(value);
            put_u32(&mut buf, kb.len() as u32);
            put_bytes(&mut buf, kb);
            put_u32(&mut buf, vb.len() as u32);
            put_bytes(&mut buf, vb);
            proof {
                let e = metadata_entries(self.metadata);
                assert(e.take(j + 1).drop_last() =~= e.take(j as int));
                assert(e.take(j + 1).last() == e[j as int]);
            }
            j = j + 1;
        }
        proof {
            assert(metadata_entries(self.metadata).take(m as int) =~= metadata_entries(self.metadata));
        }
        assert(buf@ =~= snapshot_bytes(self.generation, state_entries(self.state), metadata_entries(self.metadata)));
        buf
    }

    /// Whether `decode` reads only inside `buf` (see `snapshot_in_bounds`).
    pub fn is_decodable(buf: &[u8]) -> (r: bool)
        ensures
            r == snapshot_in_bounds(buf@),
    {
        if buf.len() < 12 {
            return false;
        }
        let state_len = get_u32(buf, 8);
        match scan_stop(buf, 12, state_len, false) {
            ScanStop::OutOfBounds => false,
            ScanStop::NotUtf8 => true,
            ScanStop::End(end) => {
                if buf.len() - end < 4 {
                    return false;
                }
                let metadata_len = get_u32(buf, end);
                match scan_stop(buf, end + 4, metadata_len, true) {
                    ScanStop::OutOfBounds => false,
                    _ => true,
                }
            },
        }
    }

    /// Decodes a snapshot; a later entry with a key already read replaces
    /// the earlier one.
    pub fn decode(buf: &[u8]) -> (r: Result<Snapshot, SnapshotError>)
        requires
            snapshot_in_bounds(buf@),
        ensures
            snapshot_decode_result(buf@, r),
    {
        let ghost b = buf@;
        let n = buf.len();
        let generation = get_u64(buf, 0);
        let state_len = get_u32(buf, 8) as usize;
        let mut offset: usize = 12;
        let mut state: StrMap<Vec<u8>> = StrMap::new();
        let ghost mut done: Seq<(Seq<u8>, Seq<u8>)> = Seq::empty();
        let mut i: usize = 0;
        assert(done + Seq::<(Seq<u8>, Seq<u8>)>::empty() =~= done);
        assert(state_entries(state) =~= insert_all(state_records(done)));
        while i < state_len
            invariant
                n == b.len(),
                b == buf@,
                snapshot_in_bounds(b),
                state_len == u32_at(b, 8),
                i <= state_len,
                done.len() == i,
                offset <= n,
                snapshot_state_scan(b) == prepend_scan(done, scan_records(b, offset as int, (state_len - i) as nat, false)),
                state_entries(state) == insert_all(state_records(done)),
            decreases state_len - i,
        {
            let ghost c = (state_len - i) as nat;
            assert(scan_records(b, offset as int, c, false) !is OutOfBounds);
            let key_len = get_u32(buf, offset) as usize;
            offset = offset + 4;
            let key_bytes = get_bytes(buf, offset, key_len);
            let key = match string_from_utf8(key_bytes) {
                Ok(k) => k,
                Err(_) => {
                    return Err(SnapshotError::DecodeError(owned("state_key")));
                },
            };
            offset = offset + key_len;
            let value_len = get_u32(buf, offset) as usize;
            offset = offset + 4;
            let value = get_bytes(buf, offset, value_len);
            offset = offset + value_len;
            let ghost rec = (key_bytes@, value@);
            proof {
                let rest = scan_records(b, offset as int, (c - 1) as nat, false);
                assert(scan_records(b, offset - 8 - key_len - value_len, c, false) == match rest {
                    Scan::Records { recs, end } => Scan::Records { recs: seq![rec] + recs, end },
                    other => other,
                });
                match rest {
                    Scan::Records { recs, end } => {
                        assert(done + (seq![rec] + recs) =~= done.push(rec) + recs);
                    },
                    _ => {},
                }
                assert(state_records(done.push(rec)).drop_last() =~= state_records(done));
            }
            let ghost old_state = state@;
            let ghost kv = key@;
            let ghost vv = value;
            state.insert(key, value);
            proof {
                lemma_state_insert(old_state, kv, vv);
                done = done.push(rec);
            }
            i = i + 1;
        }
        assert(done + Seq::<(Seq<u8>, Seq<u8>)>::empty() =~= done);
        let ghost srecs = done;
        let ghost state_end = offset as int;
        assert(snapshot_state_scan(b) == (Scan::Records { recs: srecs, end: state_end }));
        let metadata_len = get_u32(buf, offset) as usize;
        offset = offset + 4;
        let mut metadata: StrMap<String> = StrMap::new();
        let ghost mut mdone: Seq<(Seq<u8>, Seq<u8>)> = Seq::empty();
        let mut j: usize = 0;
        assert(mdone + Seq::<(Seq<u8>, Seq<u8>)>::empty() =~= mdone);
        assert(metadata_entries(metadata) =~= insert_all(metadata_records(mdone)));
        while j < metadata_len
            invariant
                n == b.len(),
                b == buf@,
                snapshot_in_bounds(b),
                snapshot_state_scan(b) == (Scan::Records { recs: srecs, end: state_end }),
                metadata_len == u32_at(b, state_end),
                j <= metadata_len,
                mdone.len() == j,
                offset <= n,
                state_entries(state) == insert_all(state_records(srecs)),
                snapshot_metadata_scan(b) == prepend_scan(mdone, scan_records(b, offset as int, (metadata_len - j) as nat, true)),
                metadata_entries(metadata) == insert_all(metadata_records(mdone)),
            decreases metadata_len - j,
        {
            let ghost c = (metadata_len - j) as nat;
            assert(scan_records(b, offset as int, c, true) !is OutOfBounds);
            let key_len = get_u32(buf, offset) as usize;
            offset = offset + 4;
            let key_bytes = get_bytes(buf, offset, key_len);
            let key = match string_from_utf8(key_bytes) {
                Ok(k) => k,
                Err(_) => {
                    return Err(SnapshotError::DecodeError(owned("metadata_key")));
                },
            };
            offset = offset + key_len;
            let value_len = get_u32(buf, offset) as usize;
            offset = offset + 4;
            let value_bytes = get_bytes(buf, offset, value_len);
            let value = match string_from_utf8(value_bytes) {
                Ok(v) => v,
                Err(_) => {
                    return Err(SnapshotError::DecodeError(owned("metadata_value")));
                },
            };
            offset = offset + value_len;
            let ghost rec = (key_bytes@, value_bytes@);
            proof {
                let rest = scan_records(b, offset as int, (c - 1) as nat, true);
                assert(scan_records(b, offset - 8 - key_len - value_len, c, true) == match rest {
                    Scan::Records { recs, end } => Scan::Records { recs: seq![rec] + recs, end },
                    other => other,
                });
                match rest {
                    Scan::Records { recs, end } => {
                        assert(mdone + (seq![rec] + recs) =~= mdone.push(rec) + recs);
                    },
                    _ => {},
                }
                assert(metadata_records(mdone.push(rec)).drop_last() =~= metadata_records(mdone));
            }
            let ghost old_meta = metadata@;
            let ghost kv = key@;
            let ghost vv = value;
            metadata.insert(key, value);
            proof {
                lemma_metadata_insert(old_meta, kv, vv);
                mdone = mdone.push(rec);
            }
            j = j + 1;
        }
        assert(mdone + Seq::<(Seq<u8>, Seq<u8>)>::empty() =~= mdone);
        Ok(Snapshot { generation, state, metadata })
    }
}

/// Where a scan of records stops: after the last record, at a field that
/// is not UTF-8, or past the end of the buffer.
enum ScanStop {
    End(usize),
    NotUtf8,
    OutOfBounds,
}

/// Whether two scans stop in the same way and at the same place.
spec fn same_stop(s1: Scan, s2: Scan) -> bool {
    match s1 {
        Scan::Records { end, .. } => s2 matches Scan::Records { end: e2, .. } && e2 == end,
        Scan::NotUtf8 { .. } => s2 is NotUtf8,
        Scan::OutOfBounds => s2 is OutOfBounds,
    }
}

/// Where the scan of `count` records from `pos` stops (see `scan_records`).
fn scan_stop(buf: &[u8], pos: usize, count: u32, text_values: bool) -> (r: ScanStop)
    requires
        pos <= buf@.len(),
    ensures
        match r {
            ScanStop::End(e) => same_stop(scan_records(buf@, pos as int, count as nat, text_values),
                Scan::Records { recs: Seq::empty(), end: e as int }) && e <= buf@.len(),
            ScanStop::NotUtf8 => scan_records(buf@, pos as int, count as nat, text_values) is NotUtf8,
            ScanStop::OutOfBounds => scan_records(buf@, pos as int, count as nat, text_values) is OutOfBounds,
        },
{
    let ghost b = buf@;
    let n = buf.len();
    let mut offset = pos;
    let mut left = count;
    while left > 0
        invariant
            n == b.len(),
            b == buf@,
            offset <= n,
            left <= count,
            same_stop(scan_records(b, pos as int, count as nat, text_values),
                scan_records(b, offset as int, left as nat, text_values)),
        decreases left,
    {
        let ghost c = left as nat;
        if n - offset < 4 {
            return ScanStop::OutOfBounds;
        }
        let key_len = get_u32(buf, offset) as usize;
        if n - offset - 4 < key_len {
            return ScanStop::OutOfBounds;
        }
        let key_bytes = get_bytes(buf, offset + 4, key_len);
        if string_from_utf8(key_bytes).is_err() {
            return ScanStop::NotUtf8;
        }
        if n - offset - 4 - key_len < 4 {
            return ScanStop::OutOfBounds;
        }
        let value_len = get_u32(buf, offset + 4 + key_len) as usize;
        if n - offset - 8 - key_len < value_len {
            return ScanStop::OutOfBounds;
        }
        if text_values {
            let value_bytes = get_bytes(buf, offset + 8 + key_len, value_len);
            if string_from_utf8(value_bytes).is_err() {
                return ScanStop::NotUtf8;
            }
        }
        let ghost here = offset as int;
        offset = offset + 8 + key_len + value_len;
        left = left - 1;
        proof {
            let rest = scan_records(b, offset as int, left as nat, text_values);
            let rec = (b.subrange(here + 4, here + 4 + key_len), b.subrange(here + 8 + key_len, offset as int));
            assert(scan_records(b, here, c, text_values) == match rest {
                Scan::Records { recs, end } => Scan::Records { recs: seq![rec] + recs, end },
                other => other,
            });
        }
    }
    ScanStop::End(offset)
}

/// Seconds since the Unix epoch on the system clock (zero if the clock is
/// set before the epoch). Nothing is promised about the value.
#[verifier::external_body]
fn unix_time_secs() -> u64 {
    std::time::SystemTime::now().duration_since(std::time::UNIX_EPOCH).unwrap_or_default().as_secs()
}

/// Whether a file name is that of a snapshot: `snapshot-` ... `.bin`.
pub open spec fn is_snapshot_file_name(n: Seq<char>) -> bool {
    &&& "snapshot-"@.is_prefix_of(n)
    &&& n.len() >= 4
    &&& n.skip(n.len() - 4) == ".bin"@
}

/// Among directory entry names, the position of the latest snapshot: the
/// snapshot file name that comes last in name order. `None` when no name
/// is that of a snapshot.
pub fn latest_snapshot_file(names: &Vec<String>) -> (r: Option<usize>)
    ensures
        match r {
            None => forall|i: int| 0 <= i < names@.len() ==> !is_snapshot_file_name(#[trigger] names@[i]@),
            Some(i) => i < names@.len() && is_snapshot_file_name(names@[i as int]@)
                && forall|j: int| 0 <= j < names@.len() && is_snapshot_file_name(#[trigger] names@[j]@)
                    ==> !chars_lt(names@[i as int]@, names@[j]@),
        },
{
    let prefix = chars_of("snapshot-");
    let suffix = chars_of(".bin");
    proof {
        reveal_strlit("snapshot-");
        reveal_strlit(".bin");
    }
    let mut best: Option<usize> = None;
    let mut i: usize = 0;
    while i < names.len()
        invariant
            i <= names@.len(),
            prefix@ == "snapshot-"@,
            suffix@ == ".bin"@,
            match best {
                None => forall|k: int| 0 <= k < i ==> !is_snapshot_file_name(#[trigger] names@[k]@),
                Some(b) => b < i && is_snapshot_file_name(names@[b as int]@)
                    && forall|k: int| 0 <= k < i && is_snapshot_file_name(#[trigger] names@[k]@)
                        ==> !chars_lt(names@[b as int]@, names@[k]@),
            },
        decreases names@.len() - i,
    {
        let name = chars_of(names[i].as_str());
        let qualifies = starts_with_chars(&name, &prefix) && name.len() >= 4 && {
            let tail = skip_chars(&name, name.len() - 4);
            chars_equal(&tail, &suffix)
        };
        assert(qualifies == is_snapshot_file_name(names@[i as int]@));
        if qualifies {
            match best {
                None => {
                    proof { lemma_chars_lt_order(name@, name@, name@); }
                    best = Some(i);
                },
                Some(b) => {
                    let current = chars_of(names[b].as_str());
                    if chars_less(&current, &name) {
                        proof {
                            assert forall|k: int| 0 <= k < i + 1 && is_snapshot_file_name(#[trigger] names@[k]@)
                                implies !chars_lt(name@, names@[k]@) by {
                                lemma_chars_lt_order(name@, names@[k]@, names@[k]@);
                                if k < i {
                                    lemma_chars_lt_order(current@, names@[k]@, name@);
                                    lemma_chars_lt_order(names@[k]@, name@, current@);
                                    lemma_chars_lt_order(current@, name@, names@[k]@);
                                }
                            }
                        }
                        best = Some(i);
                    } else {
                        proof { lemma_chars_lt_order(current@, name@, name@); }
                    }
                },
            }
        }
        i = i + 1;
    }
    best
}


/// The current time as decimal seconds since the Unix epoch.
pub fn chrono_timestamp() -> (r: String)
    ensures
        exists|t: u64| r@ == decimal_digits(t as nat),
{
    let t = unix_time_secs();
    let digits = decimal_chars(t);
    string_from_chars(&digits)
}

/// Creates, names and stamps snapshots and recovery cursors.
#[derive(Debug)]
pub struct SnapshotManager {
    layout: StorageLayout,
    current_generation: u64,
}

impl SnapshotManager {
    /// The layout the manager writes into.
    pub closed spec fn layout_spec(&self) -> StorageLayout {
        self.layout
    }

    /// The generation of the latest snapshot.
    pub closed spec fn generation_spec(&self) -> u64 {
        self.current_generation
    }

    /// A manager at generation zero.
    pub fn new(layout: StorageLayout) -> (r: SnapshotManager)
        ensures
            r.layout_spec() == layout,
            r.generation_spec() == 0,
    {
        SnapshotManager { layout, current_generation: 0 }
    }

    /// The storage layout.
    pub fn layout(&self) -> (r: &StorageLayout)
        ensures
            *r == self.layout_spec(),
    {
        &self.layout
    }

    /// The current generation.
    pub fn current_generation(&self) -> (r: u64)
        ensures
            r == self.generation_spec(),
    {
        self.current_generation
    }

    /// Sets the current generation.
    pub fn set_current_generation(&mut self, generation: u64)
        ensures
            final(self).generation_spec() == generation,
            final(self).layout_spec() == old(self).layout_spec(),
    {
        self.current_generation = generation;
    }

    /// A snapshot of the next generation holding `state`, stamped with its
    /// creation time under `created_at`.
    pub fn create_snapshot(&self, state: StrMap<Vec<u8>>) -> (r: Result<Snapshot, SnapshotError>)
        requires
            self.generation_spec() < u64::MAX,
        ensures
            r matches Ok(s) && s.generation == self.generation_spec() + 1
                && s.state@ == state@
                && s.metadata@.len() == 1
                && s.metadata@[0].0 == "created_at"@
                && exists|t: u64| s.metadata@[0].1@ == decimal_digits(t as nat),
    {
        let generation = self.current_generation + 1;
        let mut snapshot = Snapshot::from_state(generation, state);
        let stamp = chrono_timestamp();
        snapshot.set_metadata(owned("created_at"), stamp);
        proof {
            crate::strmap::lemma_key_pos(Seq::<(Seq<char>, String)>::empty(), "created_at"@);
        }
        Ok(snapshot)
    }

    /// Where a snapshot goes and the bytes to write there.
    pub fn save_snapshot(&self, snapshot: &Snapshot) -> (r: (String, Vec<u8>))
        ensures
            r.0@ == path_join(self.layout_spec().snapshot_dir@, snapshot_name(snapshot.generation)),
            r.1@ == snapshot_bytes(snapshot.generation, state_entries(snapshot.state), metadata_entries(snapshot.metadata)),
    {
        let path = self.layout.snapshot_path(snapshot.generation);
        let bytes = snapshot.encode();
        (path, bytes)
    }

    /// A recovery cursor at the current generation and the given WAL
    /// position, with its checksum filled in.
    pub fn get_recovery_cursor(&self, wal_segment_id: u64, wal_offset: u64) -> (r: RecoveryCursor)
        ensures
            r.version == 1,
            r.snapshot_generation == self.generation_spec(),
            r.wal_segment_id == wal_segment_id,
            r.wal_offset == wal_offset,
            r.checksum == crc32_of(cursor_checked_bytes(r)),
    {
        let mut cursor = RecoveryCursor {
            version: 1,
            snapshot_generation: self.current_generation,
            wal_segment_id,
            wal_offset,
            checksum: 0,
        };
        cursor.checksum = cursor.compute_checksum();
        cursor
    }
}

/// The encoding of one raw record: key length, key, value length, value.
pub open spec fn record_bytes(r: (Seq<u8>, Seq<u8>)) -> Seq<u8> {
    spec_u32_to_le_bytes(r.0.len() as u32) + r.0 + spec_u32_to_le_bytes(r.1.len() as u32) + r.1
}

/// The encoding of raw records, first to last.
pub open spec fn records_bytes(recs: Seq<(Seq<u8>, Seq<u8>)>) -> Seq<u8>
    decreases recs.len(),
{
    if recs.len() == 0 {
        Seq::empty()
    } else {
        record_bytes(recs[0]) + records_bytes(recs.drop_first())
    }
}

/// State entries as raw records.
pub open spec fn state_raw(e: Seq<(Seq<char>, Seq<u8>)>) -> Seq<(Seq<u8>, Seq<u8>)> {
    e.map_values(|p: (Seq<char>, Seq<u8>)| (encode_utf8(p.0), p.1))
}

/// Metadata entries as raw records.
pub open spec fn metadata_raw(e: Seq<(Seq<char>, Seq<char>)>) -> Seq<(Seq<u8>, Seq<u8>)> {
    e.map_values(|p: (Seq<char>, Seq<char>)| (encode_utf8(p.0), encode_utf8(p.1)))
}

/// Whether records fit the 32-bit length fields and hold valid UTF-8
/// where the reader requires it.
pub open spec fn records_readable(recs: Seq<(Seq<u8>, Seq<u8>)>, text_values: bool) -> bool {
    forall|i: int| 0 <= i < recs.len() ==> {
        &&& (#[trigger] recs[i]).0.len() <= u32::MAX
        &&& recs[i].1.len() <= u32::MAX
        &&& valid_utf8(recs[i].0)
        &&& text_values ==> valid_utf8(recs[i].1)
    }
}

/// A snapshot whose counts and field lengths fit the 32-bit fields.
pub open spec fn snapshot_encodable(state: Seq<(Seq<char>, Seq<u8>)>, metadata: Seq<(Seq<char>, Seq<char>)>) -> bool {
    &&& state.len() <= u32::MAX
    &&& metadata.len() <= u32::MAX
    &&& forall|i: int| 0 <= i < state.len() ==> encode_utf8((#[trigger] state[i]).0).len() <= u32::MAX && state[i].1.len() <= u32::MAX
    &&& forall|i: int| 0 <= i < metadata.len() ==> encode_utf8((#[trigger] metadata[i]).0).len() <= u32::MAX
            && encode_utf8(metadata[i].1).len() <= u32::MAX
}

proof fn lemma_records_bytes_push(recs: Seq<(Seq<u8>, Seq<u8>)>, r: (Seq<u8>, Seq<u8>))
    ensures
        records_bytes(recs.push(r)) == records_bytes(recs) + record_bytes(r),
    decreases recs.len(),
{
    if recs.len() == 0 {
        assert(recs.push(r).drop_first() =~= Seq::<(Seq<u8>, Seq<u8>)>::empty());
        assert(records_bytes(recs.push(r).drop_first()) =~= Seq::<u8>::empty());
        assert(recs.push(r)[0] == r);
        assert(records_bytes(recs.push(r)) =~= record_bytes(r));
    } else {
        assert(recs.push(r).drop_first() =~= recs.drop_first().push(r));
        lemma_records_bytes_push(recs.drop_first(), r);
        assert(records_bytes(recs.push(r)) =~= records_bytes(recs) + record_bytes(r));
    }
}

proof fn lemma_state_section_raw(e: Seq<(Seq<char>, Seq<u8>)>)
    ensures
        state_section(e) == records_bytes(state_raw(e)),
    decreases e.len(),
{
    if e.len() > 0 {
        lemma_state_section_raw(e.drop_last());
        assert(state_raw(e) =~= state_raw(e.drop_last()).push((encode_utf8(e.last().0), e.last().1)));
        lemma_records_bytes_push(state_raw(e.drop_last()), (encode_utf8(e.last().0), e.last().1));
    } else {
        assert(state_raw(e) =~= Seq::<(Seq<u8>, Seq<u8>)>::empty());
    }
}

proof fn lemma_metadata_section_raw(e: Seq<(Seq<char>, Seq<char>)>)
    ensures
        metadata_section(e) == records_bytes(metadata_raw(e)),
    decreases e.len(),
{
    if e.len() > 0 {
        lemma_metadata_section_raw(e.drop_last());
        let r = (encode_utf8(e.last().0), encode_utf8(e.last().1));
        assert(metadata_raw(e) =~= metadata_raw(e.drop_last()).push(r));
        lemma_records_bytes_push(metadata_raw(e.drop_last()), r);
    } else {
        assert(metadata_raw(e) =~= Seq::<(Seq<u8>, Seq<u8>)>::empty());
    }
}

proof fn lemma_scan_records(b: Seq<u8>, pos: int, recs: Seq<(Seq<u8>, Seq<u8>)>, text_values: bool)
    requires
        0 <= pos,
        pos + records_bytes(recs).len() <= b.len(),
        b.subrange(pos, pos + records_bytes(recs).len()) == records_bytes(recs),
        records_readable(recs, text_values),
    ensures
        scan_records(b, pos, recs.len(), text_values)
            == (Scan::Records { recs, end: pos + records_bytes(recs).len() }),
    decreases recs.len(),
{
    lemma_le_round_trips();
    if recs.len() > 0 {
        let r = recs[0];
        let rb = record_bytes(r);
        let rest = recs.drop_first();
        let kl = r.0.len() as int;
        let vl = r.1.len() as int;
        assert(records_bytes(recs) == rb + records_bytes(rest));
        assert(b.subrange(pos, pos + rb.len()) =~= rb) by {
            assert(b.subrange(pos, pos + rb.len()) =~= records_bytes(recs).subrange(0, rb.len() as int));
        }
        assert(b.subrange(pos + rb.len(), pos + rb.len() + records_bytes(rest).len()) =~= records_bytes(rest)) by {
            assert(b.subrange(pos + rb.len(), pos + rb.len() + records_bytes(rest).len())
                =~= records_bytes(recs).subrange(rb.len() as int, records_bytes(recs).len() as int));
        }
        assert(b.subrange(pos, pos + 4) =~= spec_u32_to_le_bytes(kl as u32)) by {
            assert(b.subrange(pos, pos + 4) =~= rb.subrange(0, 4));
        }
        assert(u32_at(b, pos) == kl);
        assert(b.subrange(pos + 4, pos + 4 + kl) =~= r.0) by {
            assert(b.subrange(pos + 4, pos + 4 + kl) =~= rb.subrange(4, 4 + kl));
        }
        assert(b.subrange(pos + 4 + kl, pos + 8 + kl) =~= spec_u32_to_le_bytes(vl as u32)) by {
            assert(b.subrange(pos + 4 + kl, pos + 8 + kl) =~= rb.subrange(4 + kl, 8 + kl));
        }
        assert(u32_at(b, pos + 4 + kl) == vl);
        assert(b.subrange(pos + 8 + kl, pos + 8 + kl + vl) =~= r.1) by {
            assert(b.subrange(pos + 8 + kl, pos + 8 + kl + vl) =~= rb.subrange(8 + kl, 8 + kl + vl));
        }
        assert(records_readable(rest, text_values)) by {
            assert forall|i: int| 0 <= i < rest.len() implies #[trigger] rest[i] == recs[i + 1] by {}
        }
        lemma_scan_records(b, pos + rb.len(), rest, text_values);
        assert(seq![r] + rest =~= recs);
        assert(pos + 4 <= b.len());
        assert(pos + 4 + kl <= b.len());
        assert(valid_utf8(b.subrange(pos + 4, pos + 4 + kl)));
        assert(pos + 8 + kl + vl <= b.len());
        assert(text_values ==> valid_utf8(b.subrange(pos + 8 + kl, pos + 8 + kl + vl)));
        assert(pos + 8 + kl + vl == pos + rb.len());
        assert(((recs.len() - 1) as nat) == rest.len());
        let inner = scan_records(b, pos + 8 + kl + vl, (recs.len() - 1) as nat, text_values);
        assert(inner == (Scan::Records { recs: rest, end: pos + rb.len() + records_bytes(rest).len() }));
    } else {
        assert(recs =~= Seq::<(Seq<u8>, Seq<u8>)>::empty());
    }
}

proof fn lemma_insert_all_unique<V>(e: Seq<(Seq<char>, V)>)
    requires
        keys_unique(e),
    ensures
        insert_all(e) == e,
    decreases e.len(),
{
    if e.len() > 0 {
        let d = e.drop_last();
        assert(keys_unique(d)) by {
            assert forall|i: int, j: int| 0 <= i < d.len() && 0 <= j < d.len() && i != j implies (#[trigger] d[i]).0 != (#[trigger] d[j]).0 by {
                assert(d[i] == e[i] && d[j] == e[j]);
            }
        }
        lemma_insert_all_unique(d);
        lemma_key_pos(d, e.last().0);
        if key_pos(d, e.last().0) >= 0 {
            let q = key_pos(d, e.last().0);
            assert(e[q].0 == e[e.len() - 1].0);
        }
        assert(d.push(e.last()) =~= e);
    }
}

/// Decoding the encoding of a snapshot reads inside the buffer and gives
/// back its generation and, entry for entry and in order, its state and
/// metadata.
pub proof fn lemma_snapshot_round_trip(
    generation: u64,
    state: Seq<(Seq<char>, Seq<u8>)>,
    metadata: Seq<(Seq<char>, Seq<char>)>,
)
    requires
        keys_unique(state),
        keys_unique(metadata),
        snapshot_encodable(state, metadata),
    ensures
        snapshot_in_bounds(snapshot_bytes(generation, state, metadata)),
        forall|r: Result<Snapshot, SnapshotError>|
            snapshot_decode_result(snapshot_bytes(generation, state, metadata), r) ==> (r matches Ok(s)
                && s.generation == generation
                && state_entries(s.state) == state
                && metadata_entries(s.metadata) == metadata),
{
    lemma_le_round_trips();
    let b = snapshot_bytes(generation, state, metadata);
    let sraw = state_raw(state);
    let mraw = metadata_raw(metadata);
    lemma_state_section_raw(state);
    lemma_metadata_section_raw(metadata);
    let sb = records_bytes(sraw);
    let mb = records_bytes(mraw);
    assert(b =~= spec_u64_to_le_bytes(generation) + spec_u32_to_le_bytes(state.len() as u32) + sb
        + spec_u32_to_le_bytes(metadata.len() as u32) + mb);
    assert(b.subrange(0, 8) =~= spec_u64_to_le_bytes(generation));
    assert(b.subrange(8, 12) =~= spec_u32_to_le_bytes(state.len() as u32));
    assert(u32_at(b, 8) == state.len());
    assert(records_readable(sraw, false)) by {
        assert forall|i: int| 0 <= i < sraw.len() implies {
            &&& (#[trigger] sraw[i]).0.len() <= u32::MAX
            &&& sraw[i].1.len() <= u32::MAX
            &&& valid_utf8(sraw[i].0)
            &&& false ==> valid_utf8(sraw[i].1)
        } by {
            encode_utf8_valid_utf8(state[i].0);
        }
    }
    assert(records_readable(mraw, true)) by {
        assert forall|i: int| 0 <= i < mraw.len() implies {
            &&& (#[trigger] mraw[i]).0.len() <= u32::MAX
            &&& mraw[i].1.len() <= u32::MAX
            &&& valid_utf8(mraw[i].0)
            &&& true ==> valid_utf8(mraw[i].1)
        } by {
            encode_utf8_valid_utf8(metadata[i].0);
            encode_utf8_valid_utf8(metadata[i].1);
        }
    }
    assert(b.subrange(12, 12 + sb.len() as int) =~= sb);
    lemma_scan_records(b, 12, sraw, false);
    assert(sraw.len() == state.len());
    let send: int = 12 + sb.len() as int;
    assert(snapshot_state_scan(b) == (Scan::Records { recs: sraw, end: send }));
    assert(b.subrange(send, send + 4) =~= spec_u32_to_le_bytes(metadata.len() as u32));
    assert(u32_at(b, send) == metadata.len());
    assert(b.subrange(send + 4, send + 4 + mb.len() as int) =~= mb);
    lemma_scan_records(b, send + 4, mraw, true);
    assert(snapshot_metadata_scan(b) == (Scan::Records { recs: mraw, end: send + 4 + mb.len() }));
    assert(state_records(sraw) =~= state) by {
        assert forall|i: int| 0 <= i < state.len() implies #[trigger] state_records(sraw)[i] == state[i] by {
            encode_utf8_decode_utf8(state[i].0);
        }
    }
    assert(metadata_records(mraw) =~= metadata) by {
        assert forall|i: int| 0 <= i < metadata.len() implies #[trigger] metadata_records(mraw)[i] == metadata[i] by {
            encode_utf8_decode_utf8(metadata[i].0);
            encode_utf8_decode_utf8(metadata[i].1);
        }
    }
    lemma_insert_all_unique(state);
    lemma_insert_all_unique(metadata);
}

} // verus!
