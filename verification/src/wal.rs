//! Write-ahead log entries: operation types, the checksummed entry and its
//! binary encoding.
use vstd::prelude::*;
use vstd::bytes::*;
use vstd::utf8::{decode_utf8, encode_utf8, valid_utf8, encode_utf8_decode_utf8, encode_utf8_valid_utf8};

use crate::codec::{get_u32, get_u64, get_bytes, put_bytes, put_u32, put_u64, lemma_le_round_trips};
use crate::layout::{checksum, crc32_of};
use crate::text::{owned, push_str_chars, string_from_utf8, utf8_bytes, utf8_error_text};

verus! {

/// Operations recorded in the log.
#[derive(Debug, Clone, Copy, PartialEq, Eq, Structural)]
pub enum OpType {
    Create,
    SetValue,
    Delete,
    SetTtl,
    AcquireLock,
    ReleaseLock,
    RegisterService,
    ServiceHeartbeat,
    UnregisterService,
}

/// The byte that encodes each operation.
pub open spec fn op_type_value(op: OpType) -> u8 {
    match op {
        OpType::Create => 1,
        OpType::SetValue => 2,
        OpType::Delete => 3,
        OpType::SetTtl => 4,
        OpType::AcquireLock => 5,
        OpType::ReleaseLock => 6,
        OpType::RegisterService => 7,
        OpType::ServiceHeartbeat => 8,
        OpType::UnregisterService => 9,
    }
}

/// The operation a byte encodes, if any.
pub open spec fn op_type_of(value: u8) -> Option<OpType> {
    if value == 1 { Some(OpType::Create) }
    else if value == 2 { Some(OpType::SetValue) }
    else if value == 3 { Some(OpType::Delete) }
    else if value == 4 { Some(OpType::SetTtl) }
    else if value == 5 { Some(OpType::AcquireLock) }
    else if value == 6 { Some(OpType::ReleaseLock) }
    else if value == 7 { Some(OpType::RegisterService) }
    else if value == 8 { Some(OpType::ServiceHeartbeat) }
    else if value == 9 { Some(OpType::UnregisterService) }
    else { None }
}

impl OpType {
    /// The operation encoded by `value`; `None` outside 1..=9.
    pub fn from_u8(value: u8) -> (r: Option<OpType>)
        ensures
            r == op_type_of(value),
    {
        match value {
            1 => Some(OpType::Create),
            2 => Some(OpType::SetValue),
            3 => Some(OpType::Delete),
            4 => Some(OpType::SetTtl),
            5 => Some(OpType::AcquireLock),
            6 => Some(OpType::ReleaseLock),
            7 => Some(OpType::RegisterService),
            8 => Some(OpType::ServiceHeartbeat),
            9 => Some(OpType::UnregisterService),
            _ => None,
        }
    }

    /// The byte that encodes this operation.
    pub fn to_u8(self) -> (r: u8)
        ensures
            r == op_type_value(self),
    {
        match self {
            OpType::Create => 1,
            OpType::SetValue => 2,
            OpType::Delete => 3,
            OpType::SetTtl => 4,
            OpType::AcquireLock => 5,
            OpType::ReleaseLock => 6,
            OpType::RegisterService => 7,
            OpType::ServiceHeartbeat => 8,
            OpType::UnregisterService => 9,
        }
    }
}

/// Decoding the byte of an operation gives the operation back, and only
/// the bytes 1 to 9 name operations.
pub proof fn lemma_op_type_round_trip(op: OpType, value: u8)
    ensures
        op_type_of(op_type_value(op)) == Some(op),
        op_type_of(value) is Some <==> 1 <= value <= 9,
{
}

/// Errors of the write-ahead log.
#[derive(Debug)]
pub enum WalError {
    IoError(std::io::Error),
    ChecksumMismatch { expected: u32, actual: u32 },
    InvalidOpType(u8),
    EncodeError(String),
}

impl From<std::io::Error> for WalError {
    fn from(err: std::io::Error) -> (r: WalError) {
        WalError::IoError(err)
    }
}

impl vstd::std_specs::convert::FromSpecImpl<std::io::Error> for WalError {
    open spec fn obeys_from_spec() -> bool {
        true
    }

    open spec fn from_spec(v: std::io::Error) -> WalError {
        WalError::IoError(v)
    }
}

/// One log entry.
#[derive(Debug, Clone)]
pub struct WalEntry {
    pub term: u64,
    pub index: u64,
    pub op_type: OpType,
    pub path: String,
    pub value: Option<Vec<u8>>,
    pub ttl_seconds: Option<u64>,
    pub crc32: u32,
}

/// The mathematical content of a log entry.
#[verifier::ext_equal]
pub struct WalEntryView {
    pub term: u64,
    pub index: u64,
    pub op_type: OpType,
    pub path: Seq<char>,
    pub value: Option<Seq<u8>>,
    pub ttl_seconds: Option<u64>,
    pub crc32: u32,
}

impl View for WalEntry {
    type V = WalEntryView;

    open spec fn view(&self) -> WalEntryView {
        WalEntryView {
            term: self.term,
            index: self.index,
            op_type: self.op_type,
            path: self.path@,
            value: match self.value {
                Some(v) => Some(v@),
                None => None,
            },
            ttl_seconds: self.ttl_seconds,
            crc32: self.crc32,
        }
    }
}

/// The bytes the entry checksum covers: term, index, operation byte, path
/// bytes, value bytes if any, ttl if any.
pub open spec fn crc_input(
    term: u64,
    index: u64,
    op_type: OpType,
    path: Seq<char>,
    value: Option<Seq<u8>>,
    ttl_seconds: Option<u64>,
) -> Seq<u8> {
    spec_u64_to_le_bytes(term) + spec_u64_to_le_bytes(index) + seq![op_type_value(op_type)]
        + encode_utf8(path)
        + (match value { Some(v) => v, None => Seq::empty() })
        + (match ttl_seconds { Some(t) => spec_u64_to_le_bytes(t), None => Seq::empty() })
}

/// The checksum the fields of an entry call for.
pub open spec fn entry_crc(e: WalEntryView) -> u32 {
    crc32_of(crc_input(e.term, e.index, e.op_type, e.path, e.value, e.ttl_seconds))
}

/// The encoding of an entry: term (8), index (8), operation (1), path
/// length (4) and path, value length (4, zero for none) and value, ttl flag
/// (4) and ttl (8, only when present), checksum (4).
pub open spec fn wal_entry_bytes(e: WalEntryView) -> Seq<u8> {
    let path = encode_utf8(e.path);
    spec_u64_to_le_bytes(e.term) + spec_u64_to_le_bytes(e.index) + seq![op_type_value(e.op_type)]
        + spec_u32_to_le_bytes(path.len() as u32) + path
        + (match e.value {
            Some(v) => spec_u32_to_le_bytes(v.len() as u32) + v,
            None => spec_u32_to_le_bytes(0),
        })
        + (match e.ttl_seconds {
            Some(t) => spec_u32_to_le_bytes(1) + spec_u64_to_le_bytes(t),
            None => spec_u32_to_le_bytes(0),
        })
        + spec_u32_to_le_bytes(e.crc32)
}

/// Little-endian `u32` at a position.
pub open spec fn u32_at(b: Seq<u8>, pos: int) -> u32 {
    spec_u32_from_le_bytes(b.subrange(pos, pos + 4))
}

/// Little-endian `u64` at a position.
pub open spec fn u64_at(b: Seq<u8>, pos: int) -> u64 {
    spec_u64_from_le_bytes(b.subrange(pos, pos + 8))
}

/// Length of the path field of an encoded entry.
pub open spec fn wal_path_len(b: Seq<u8>) -> int {
    u32_at(b, 17) as int
}

/// The path bytes of an encoded entry.
pub open spec fn wal_path_bytes(b: Seq<u8>) -> Seq<u8> {
    b.subrange(21, 21 + wal_path_len(b))
}

/// Position of the value length field.
pub open spec fn wal_value_pos(b: Seq<u8>) -> int {
    21 + wal_path_len(b)
}

/// Length of the value field.
pub open spec fn wal_value_len(b: Seq<u8>) -> int {
    u32_at(b, wal_value_pos(b)) as int
}

/// Position of the ttl flag.
pub open spec fn wal_ttl_pos(b: Seq<u8>) -> int {
    wal_value_pos(b) + 4 + wal_value_len(b)
}

/// Whether the ttl flag says a ttl follows (only the value 1 does).
pub open spec fn wal_has_ttl(b: Seq<u8>) -> bool {
    u32_at(b, wal_ttl_pos(b)) == 1
}

/// Position of the checksum.
pub open spec fn wal_crc_pos(b: Seq<u8>) -> int {
    wal_ttl_pos(b) + 4 + if wal_has_ttl(b) { 8int } else { 0int }
}

/// Whether decoding `b` reads only inside `b`: the fields are read in
/// order and decoding stops at an unknown operation or a path that is not
/// UTF-8.
pub open spec fn wal_in_bounds(b: Seq<u8>) -> bool {
    &&& b.len() >= 17
    &&& op_type_of(b[16]) is Some ==> {
        &&& b.len() >= 21
        &&& b.len() >= 21 + wal_path_len(b)
        &&& valid_utf8(wal_path_bytes(b)) ==> {
            &&& b.len() >= wal_value_pos(b) + 4
            &&& b.len() >= wal_ttl_pos(b) + 4
            &&& b.len() >= wal_crc_pos(b) + 4
        }
    }
}

/// The entry whose fields `b` holds.
pub open spec fn wal_fields(b: Seq<u8>) -> WalEntryView {
    WalEntryView {
        term: u64_at(b, 0),
        index: u64_at(b, 8),
        op_type: op_type_of(b[16]).unwrap(),
        path: decode_utf8(wal_path_bytes(b)),
        value: if wal_value_len(b) > 0 {
            Some(b.subrange(wal_value_pos(b) + 4, wal_ttl_pos(b)))
        } else {
            None
        },
        ttl_seconds: if wal_has_ttl(b) { Some(u64_at(b, wal_ttl_pos(b) + 4)) } else { None },
        crc32: u32_at(b, wal_crc_pos(b)),
    }
}

/// What decoding `b` gives: an unknown operation byte, a path that is not
/// UTF-8, a checksum that does not match the fields, or the entry.
pub open spec fn wal_decode_result(b: Seq<u8>, r: Result<WalEntry, WalError>) -> bool {
    if op_type_of(b[16]) is None {
        r matches Err(WalError::InvalidOpType(v)) && v == b[16]
    } else if !valid_utf8(wal_path_bytes(b)) {
        r matches Err(WalError::EncodeError(msg)) && "Failed to read path: "@.is_prefix_of(msg@)
    } else if entry_crc(wal_fields(b)) != wal_fields(b).crc32 {
        r matches Err(WalError::ChecksumMismatch { expected, actual })
            && expected == wal_fields(b).crc32 && actual == entry_crc(wal_fields(b))
    } else {
        r matches Ok(e) && e@ == wal_fields(b)
    }
}

/// Whether `b` begins with a whole, readable entry: its fields lie inside
/// `b`, its operation is known, its path is UTF-8 and its checksum holds.
pub open spec fn wal_whole_entry(b: Seq<u8>) -> bool {
    &&& wal_in_bounds(b)
    &&& op_type_of(b[16]) is Some
    &&& valid_utf8(wal_path_bytes(b))
    &&& entry_crc(wal_fields(b)) == wal_fields(b).crc32
}

/// The entries of a segment: whole entries one after another up to the
/// end of the bytes; `None` when a piece is not a whole, readable entry.
pub open spec fn segment_views(b: Seq<u8>) -> Option<Seq<WalEntryView>>
    decreases b.len(),
{
    if b.len() == 0 {
        Some(Seq::empty())
    } else if !wal_whole_entry(b) {
        None
    } else {
        let n = wal_crc_pos(b) + 4;
        if n <= 0 || n > b.len() {
            None
        } else {
            match segment_views(b.skip(n)) {
                Some(rest) => Some(seq![wal_fields(b)] + rest),
                None => None,
            }
        }
    }
}

impl WalEntry {
    /// A new entry whose checksum covers its fields.
    pub fn new(
        term: u64,
        index: u64,
        op_type: OpType,
        path: String,
        value: Option<Vec<u8>>,
        ttl_seconds: Option<u64>,
    ) -> (r: WalEntry)
        ensures
            r.term == term,
            r.index == index,
            r.op_type == op_type,
            r.path@ == path@,
            r@.value == (match value { Some(v) => Some(v@), None => None::<Seq<u8>> }),
            r.ttl_seconds == ttl_seconds,
            r.crc32 == entry_crc(r@),
    {
        let crc32 = Self::compute_crc(term, index, op_type, &path, &value, ttl_seconds);
        WalEntry { term, index, op_type, path, value, ttl_seconds, crc32 }
    }

    fn compute_crc(
        term: u64,
        index: u64,
        op_type: OpType,
        path: &String,
        value: &Option<Vec<u8>>,
        ttl_seconds: Option<u64>,
    ) -> (r: u32)
        ensures
            r == crc32_of(crc_input(term, index, op_type, path@,
                match value { Some(v) => Some(v@), None => None::<Seq<u8>> }, ttl_seconds)),
    {
        let mut buf: Vec<u8> = Vec::new();
        put_u64(&mut buf, term);
        put_u64(&mut buf, index);
        buf.push(op_type.to_u8());
        put_bytes(&mut buf, utf8_bytes(path));
        match value {
            Some(v) => put_bytes(&mut buf, v.as_slice()),
            None => {},
        }
        match ttl_seconds {
            Some(t) => put_u64(&mut buf, t),
            None => {},
        }
        let ghost vv = match value { Some(v) => Some(v@), None => None::<Seq<u8>> };
        assert(buf@ =~= crc_input(term, index, op_type, path@, vv, ttl_seconds));
        checksum(buf.as_slice())
    }

    /// Whether the stored checksum matches the fields.
    pub fn verify_checksum(&self) -> (r: bool)
        ensures
            r == (self.crc32 == entry_crc(self@)),
    {
        let expected = Self::compute_crc(self.term, self.index, self.op_type, &self.path, &self.value, self.ttl_seconds);
        expected == self.crc32
    }

    /// The binary encoding of the entry.
    pub fn encode(&self) -> (r: Vec<u8>)
        ensures
            r@ == wal_entry_bytes(self@),
    {
        let mut buf: Vec<u8> = Vec::new();
        put_u64(&mut buf, self.term);
        put_u64(&mut buf, self.index);
        buf.push(self.op_type.to_u8());
        let path_bytes = utf8_bytes(&self.path);
        put_u32(&mut buf, path_bytes.len() as u32);
        put_bytes(&mut buf, path_bytes);
        match &self.value {
            Some(v) => {
                put_u32(&mut buf, v.len() as u32);
                put_bytes(&mut buf, v.as_slice());
            },
            None => {
                put_u32(&mut buf, 0);
            },
        }
        match self.ttl_seconds {
            Some(ttl) => {
                put_u32(&mut buf, 1);
                put_u64(&mut buf, ttl);
            },
            None => {
                put_u32(&mut buf, 0);
            },
        }
        put_u32(&mut buf, self.crc32);
        assert(buf@ =~= wal_entry_bytes(self@));
        buf
    }

    /// Whether `decode` reads only inside `buf` (see `wal_in_bounds`).
    pub fn is_decodable(buf: &[u8]) -> (r: bool)
        ensures
            r == wal_in_bounds(buf@),
    {
        let n = buf.len();
        if n < 17 {
            return false;
        }
        if OpType::from_u8(buf[16]).is_none() {
            return true;
        }
        if n < 21 {
            return false;
        }
        let path_len = get_u32(buf, 17) as usize;
        if n - 21 < path_len {
            return false;
        }
        let path_bytes = get_bytes(buf, 21, path_len);
        if string_from_utf8(path_bytes).is_err() {
            return true;
        }
        let value_pos = 21 + path_len;
        if n - value_pos < 4 {
            return false;
        }
        let value_len = get_u32(buf, value_pos) as usize;
        if n - value_pos - 4 < value_len {
            return false;
        }
        let ttl_pos = value_pos + 4 + value_len;
        if n - ttl_pos < 4 {
            return false;
        }
        let has_ttl = get_u32(buf, ttl_pos);
        if has_ttl == 1 {
            n - ttl_pos - 4 >= 12
        } else {
            n - ttl_pos - 4 >= 4
        }
    }

    /// The length of the entry at the start of `buf`.
    fn encoded_len(buf: &[u8]) -> (r: usize)
        requires
            wal_in_bounds(buf@),
            op_type_of(buf@[16]) is Some,
            valid_utf8(wal_path_bytes(buf@)),
        ensures
            r == wal_crc_pos(buf@) + 4,
            r <= buf@.len(),
    {
        let n = buf.len();
        assert(n == buf@.len());
        let path_len = get_u32(buf, 17) as usize;
        assert(path_len == wal_path_len(buf@));
        assert(buf@.len() >= 21 + wal_path_len(buf@));
        assert(buf@.len() >= wal_ttl_pos(buf@) + 4);
        let value_pos = 21 + path_len;
        let value_len = get_u32(buf, value_pos) as usize;
        assert(value_len == wal_value_len(buf@));
        let ttl_pos = value_pos + 4 + value_len;
        let has_ttl = get_u32(buf, ttl_pos);
        assert(has_ttl == u32_at(buf@, wal_ttl_pos(buf@)));
        if has_ttl == 1 {
            ttl_pos + 16
        } else {
            ttl_pos + 8
        }
    }

    /// Decodes a whole segment: the entries one after another to the end
    /// of the bytes (see `segment_views`). A piece that is cut short is an
    /// error, as is any entry that does not decode.
    pub fn decode_segment(buf: &[u8]) -> (r: Result<Vec<WalEntry>, WalError>)
        ensures
            match segment_views(buf@) {
                Some(v) => r matches Ok(es) && es@.map_values(|e: WalEntry| e@) == v,
                None => r is Err,
            },
    {
        let n = buf.len();
        let mut entries: Vec<WalEntry> = Vec::new();
        let mut pos: usize = 0;
        assert(buf@.skip(0) =~= buf@);
        assert(entries@.map_values(|e: WalEntry| e@) =~= Seq::<WalEntryView>::empty());
        while pos < n
            invariant
                pos <= n,
                n == buf@.len(),
                segment_views(buf@) == match segment_views(buf@.skip(pos as int)) {
                    Some(rest) => Some(entries@.map_values(|e: WalEntry| e@) + rest),
                    None => None,
                },
            decreases n - pos,
        {
            let rest = vstd::slice::slice_subrange(buf, pos, n);
            assert(rest@ =~= buf@.skip(pos as int));
            if !WalEntry::is_decodable(rest) {
                return Err(WalError::EncodeError(owned("truncated entry")));
            }
            let e = match WalEntry::decode(rest) {
                Ok(e) => e,
                Err(err) => {
                    return Err(err);
                },
            };
            let len = WalEntry::encoded_len(rest);
            let ghost done = entries@.map_values(|x: WalEntry| x@);
            let ghost tail = buf@.skip(pos as int);
            entries.push(e);
            proof {
                assert(tail.skip(len as int) =~= buf@.skip(pos + len));
                assert(entries@.map_values(|x: WalEntry| x@) =~= done.push(e@));
                match segment_views(tail.skip(len as int)) {
                    Some(more) => {
                        assert(done + (seq![e@] + more) =~= done.push(e@) + more);
                    },
                    None => {},
                }
            }
            pos = pos + len;
        }
        assert(buf@.skip(n as int) =~= Seq::<u8>::empty());
        assert(entries@.map_values(|e: WalEntry| e@) + Seq::<WalEntryView>::empty() =~= entries@.map_values(|e: WalEntry| e@));
        Ok(entries)
    }

    /// Decodes an entry and checks its checksum.
    pub fn decode(buf: &[u8]) -> (r: Result<WalEntry, WalError>)
        requires
            wal_in_bounds(buf@),
        ensures
            wal_decode_result(buf@, r),
    {
        let n = buf.len();
        let term = get_u64(buf, 0);
        let index = get_u64(buf, 8);
        let op_type_val = buf[16];
        let op_type = match OpType::from_u8(op_type_val) {
            Some(op) => op,
            None => {
                return Err(WalError::InvalidOpType(op_type_val));
            },
        };
        let path_len = get_u32(buf, 17) as usize;
        let mut offset: usize = 21;
        let path_bytes = get_bytes(buf, offset, path_len);
        let path = match string_from_utf8(path_bytes) {
            Ok(s) => s,
            Err(e) => {
                let mut msg = owned("Failed to read path: ");
                let detail = utf8_error_text(&e);
                push_str_chars(&mut msg, detail.as_str());
                assert("Failed to read path: "@.is_prefix_of(msg@)) by {
                    assert(msg@.subrange(0, "Failed to read path: "@.len() as int) =~= "Failed to read path: "@);
                }
                return Err(WalError::EncodeError(msg));
            },
        };
        offset = offset + path_len;
        let value_len = get_u32(buf, offset) as usize;
        offset = offset + 4;
        let value = if value_len > 0 {
            Some(get_bytes(buf, offset, value_len))
        } else {
            None
        };
        if value_len > 0 {
            offset = offset + value_len;
        }
        let has_ttl = get_u32(buf, offset);
        offset = offset + 4;
        let ttl_seconds = if has_ttl == 1 {
            let ttl = get_u64(buf, offset);
            offset = offset + 8;
            Some(ttl)
        } else {
            None
        };
        let crc32 = get_u32(buf, offset);
        let entry = WalEntry { term, index, op_type, path, value, ttl_seconds, crc32 };
        assert(entry@ == wal_fields(buf@));
        if !entry.verify_checksum() {
            let actual = Self::compute_crc(term, index, op_type, &entry.path, &entry.value, entry.ttl_seconds);
            return Err(WalError::ChecksumMismatch { expected: entry.crc32, actual });
        }
        Ok(entry)
    }
}

/// An entry the encoding can carry unchanged: its path and value lengths
/// fit the 32-bit length fields, and a present value is not empty (an
/// empty value is written as length zero, which reads back as no value).
pub open spec fn wal_entry_encodable(e: WalEntryView) -> bool {
    &&& encode_utf8(e.path).len() <= u32::MAX
    &&& match e.value {
        Some(v) => 0 < v.len() <= u32::MAX,
        None => true,
    }
}

/// Decoding the encoding of an entry reads inside the buffer and gives
/// back every field; with a matching checksum the decoder returns the
/// entry itself.
pub proof fn lemma_wal_entry_round_trip(e: WalEntryView)
    requires
        wal_entry_encodable(e),
    ensures
        wal_in_bounds(wal_entry_bytes(e)),
        op_type_of(wal_entry_bytes(e)[16]) == Some(e.op_type),
        valid_utf8(wal_path_bytes(wal_entry_bytes(e))),
        wal_fields(wal_entry_bytes(e)) == e,
        e.crc32 == entry_crc(e) ==> forall|r: Result<WalEntry, WalError>|
            wal_decode_result(wal_entry_bytes(e), r) ==> (r matches Ok(x) && x@ == e),
{
    lemma_le_round_trips();
    let b = wal_entry_bytes(e);
    let path = encode_utf8(e.path);
    encode_utf8_decode_utf8(e.path);
    encode_utf8_valid_utf8(e.path);
    let pl = path.len() as int;
    let vpart = match e.value {
        Some(v) => spec_u32_to_le_bytes(v.len() as u32) + v,
        None => spec_u32_to_le_bytes(0),
    };
    let tpart = match e.ttl_seconds {
        Some(t) => spec_u32_to_le_bytes(1) + spec_u64_to_le_bytes(t),
        None => spec_u32_to_le_bytes(0),
    };
    let head = spec_u64_to_le_bytes(e.term) + spec_u64_to_le_bytes(e.index) + seq![op_type_value(e.op_type)]
        + spec_u32_to_le_bytes(path.len() as u32) + path;
    assert(b =~= head + vpart + tpart + spec_u32_to_le_bytes(e.crc32));
    assert(head.len() == 21 + pl);
    assert(b.subrange(0, 8) =~= spec_u64_to_le_bytes(e.term));
    assert(b.subrange(8, 16) =~= spec_u64_to_le_bytes(e.index));
    assert(b[16] == op_type_value(e.op_type));
    assert(b.subrange(17, 21) =~= spec_u32_to_le_bytes(path.len() as u32));
    assert(wal_path_len(b) == pl);
    assert(wal_path_bytes(b) =~= path);
    let vp = 21 + pl;
    assert(wal_value_pos(b) == vp);
    let vl: int = match e.value { Some(v) => v.len() as int, None => 0 };
    assert(b.subrange(vp, vp + 4) =~= vpart.subrange(0, 4));
    match e.value {
        Some(v) => {
            assert(vpart.subrange(0, 4) =~= spec_u32_to_le_bytes(v.len() as u32));
            assert(b.subrange(vp + 4, vp + 4 + vl) =~= v);
        },
        None => {
            assert(vpart.subrange(0, 4) =~= spec_u32_to_le_bytes(0));
        },
    }
    assert(wal_value_len(b) == vl);
    let tp = vp + 4 + vl;
    assert(wal_ttl_pos(b) == tp);
    assert(b.subrange(tp, tp + 4) =~= tpart.subrange(0, 4));
    match e.ttl_seconds {
        Some(t) => {
            assert(tpart.subrange(0, 4) =~= spec_u32_to_le_bytes(1));
            assert(b.subrange(tp + 4, tp + 12) =~= spec_u64_to_le_bytes(t));
        },
        None => {
            assert(tpart.subrange(0, 4) =~= spec_u32_to_le_bytes(0));
        },
    }
    let cp = wal_crc_pos(b);
    assert(b.subrange(cp, cp + 4) =~= spec_u32_to_le_bytes(e.crc32));
    assert(wal_fields(b) =~= e);
}

/// Appends entries to the current WAL segment and rolls over to the next
/// segment once the current one reaches its size limit. The segment file
/// is held by the caller; this type keeps the position and runs the
/// caller's file operations at the right moments.
#[derive(Debug)]
pub struct WalWriter {
    segment_id: u64,
    offset: u64,
    max_segment_size: u64,
}

impl WalWriter {
    /// A writer positioned at the end of segment `segment_id`, whose file
    /// (opened for appending by the caller) holds `existing_len` bytes.
    pub fn new(segment_id: u64, max_segment_size: u64, existing_len: u64) -> (r: WalWriter)
        ensures
            r.segment_id() == segment_id,
            r.offset() == existing_len,
            r.max_segment_size() == max_segment_size,
    {
        WalWriter { segment_id, offset: existing_len, max_segment_size }
    }

    /// The segment being written.
    #[verifier::when_used_as_spec(spec_segment_id)]
    pub fn segment_id(&self) -> (r: u64)
        ensures
            r == self.spec_segment_id(),
    {
        self.segment_id
    }

    /// The byte offset at which the next entry goes.
    #[verifier::when_used_as_spec(spec_offset)]
    pub fn offset(&self) -> (r: u64)
        ensures
            r == self.spec_offset(),
    {
        self.offset
    }

    /// The segment being written.
    pub closed spec fn spec_segment_id(&self) -> u64 {
        self.segment_id
    }

    /// The byte offset at which the next entry goes.
    pub closed spec fn spec_offset(&self) -> u64 {
        self.offset
    }

    /// The size at which a segment is full.
    pub closed spec fn max_segment_size(&self) -> u64 {
        self.max_segment_size
    }

    /// Whether the current segment is full.
    pub fn should_roll(&self) -> (r: bool)
        ensures
            r == (self.offset() >= self.max_segment_size()),
    {
        self.offset >= self.max_segment_size
    }

    /// Appends an entry: its encoding is handed to `append`, which writes
    /// it to the segment file; the outcome is what `append` reports. On
    /// success the offset moves past the entry and the new offset (the end
    /// of the entry) is given back; a failed write gives `append`'s error
    /// and leaves the position as it was.
    pub fn write<F: FnOnce(Vec<u8>) -> Result<(), std::io::Error>>(&mut self, entry: &WalEntry, append: F) -> (r: Result<u64, std::io::Error>)
        requires
            forall|b: Vec<u8>| call_requires(append, (b,)),
            old(self).offset() + wal_entry_bytes(entry@).len() <= u64::MAX,
        ensures
            final(self).segment_id() == old(self).segment_id(),
            final(self).max_segment_size() == old(self).max_segment_size(),
            exists|b: Vec<u8>, a: Result<(), std::io::Error>| #![trigger call_ensures(append, (b,), a)]
                b@ == wal_entry_bytes(entry@) && call_ensures(append, (b,), a) && match a {
                    Ok(_) => final(self).offset() == old(self).offset() + wal_entry_bytes(entry@).len()
                        && r == Ok::<u64, std::io::Error>(final(self).offset()),
                    Err(e) => r == Err::<u64, std::io::Error>(e) && final(self).offset() == old(self).offset(),
                },
    {
        let encoded = entry.encode();
        let len = encoded.len() as u64;
        let ghost handed = encoded;
        let outcome = append(encoded);
        assert(call_ensures(append, (handed,), outcome));
        match outcome {
            Ok(()) => {
                self.offset = self.offset + len;
                Ok(self.offset)
            },
            Err(e) => Err(e),
        }
    }

    /// Moves to the next segment: `sync` flushes the current file, then
    /// `open` opens the file of the new segment id. After a failed sync
    /// nothing changes and its error is given; after a failed open the
    /// segment id has moved on, the offset has not been reset and the open
    /// error is given.
    pub fn roll<S: FnOnce() -> Result<(), std::io::Error>, O: FnOnce(u64) -> Result<(), std::io::Error>>(&mut self, sync: S, open: O) -> (r: Result<(), std::io::Error>)
        requires
            call_requires(sync, ()),
            forall|id: u64| call_requires(open, (id,)),
            old(self).segment_id() < u64::MAX,
        ensures
            final(self).max_segment_size() == old(self).max_segment_size(),
            exists|s: Result<(), std::io::Error>| #![trigger call_ensures(sync, (), s)]
                call_ensures(sync, (), s) && match s {
                    Err(e) => r == Err::<(), std::io::Error>(e)
                        && final(self).segment_id() == old(self).segment_id()
                        && final(self).offset() == old(self).offset(),
                    Ok(_) => final(self).segment_id() == old(self).segment_id() + 1
                        && exists|o: Result<(), std::io::Error>| #![trigger call_ensures(open, (final(self).segment_id(),), o)]
                            call_ensures(open, (final(self).segment_id(),), o) && match o {
                                Ok(_) => r is Ok && final(self).offset() == 0,
                                Err(e) => r == Err::<(), std::io::Error>(e) && final(self).offset() == old(self).offset(),
                            },
                },
    {
        let synced = sync();
        assert(call_ensures(sync, (), synced));
        match synced {
            Ok(()) => {},
            Err(e) => return Err(e),
        }
        self.segment_id = self.segment_id + 1;
        let opened = open(self.segment_id);
        assert(call_ensures(open, (self.segment_id,), opened));
        match opened {
            Ok(()) => {},
            Err(e) => return Err(e),
        }
        self.offset = 0;
        Ok(())
    }
}

/// The entry checksum covers the value: two entries that agree on every
/// other field but carry different value bytes have different checksum
/// inputs, and the value bytes stand in the input right after the path.
pub proof fn lemma_checksum_covers_value(
    term: u64,
    index: u64,
    op_type: OpType,
    path: Seq<char>,
    v1: Seq<u8>,
    v2: Seq<u8>,
    ttl_seconds: Option<u64>,
)
    ensures
        crc_input(term, index, op_type, path, Some(v1), ttl_seconds).subrange(
            17 + encode_utf8(path).len() as int, 17 + encode_utf8(path).len() + v1.len() as int) == v1,
        v1 != v2 ==> crc_input(term, index, op_type, path, Some(v1), ttl_seconds)
            != crc_input(term, index, op_type, path, Some(v2), ttl_seconds),
{
    let pre = spec_u64_to_le_bytes(term) + spec_u64_to_le_bytes(index) + seq![op_type_value(op_type)] + encode_utf8(path);
    let t = match ttl_seconds { Some(t) => spec_u64_to_le_bytes(t), None => Seq::<u8>::empty() };
    let x1 = crc_input(term, index, op_type, path, Some(v1), ttl_seconds);
    let x2 = crc_input(term, index, op_type, path, Some(v2), ttl_seconds);
    vstd::bytes::lemma_auto_spec_u64_to_from_le_bytes();
    assert(pre.len() == 17 + encode_utf8(path).len());
    assert(x1 =~= pre + v1 + t);
    assert(x2 =~= pre + v2 + t);
    assert(x1.subrange(pre.len() as int, pre.len() + v1.len() as int) =~= v1);
    if v1 != v2 && v1.len() == v2.len() {
        if forall|k: int| 0 <= k < v1.len() ==> v1[k] == v2[k] {
            assert(v1 =~= v2);
        }
        let k = choose|k: int| 0 <= k < v1.len() && v1[k] != v2[k];
        assert(x1[pre.len() + k] == v1[k]);
        assert(x2[pre.len() + k] == v2[k]);
    }
}

} // verus!
