//! The recovery cursor: how far recovery got (snapshot generation and WAL
//! position), stored as a fixed 32-byte record.
use vstd::prelude::*;
use vstd::bytes::*;

use crate::codec::{get_u32, get_u64, put_u32, put_u64, lemma_le_round_trips};
use crate::layout::{checksum, crc32_of};

verus! {

/// Length in bytes of a stored recovery cursor.
pub const CURSOR_RECORD_LEN: usize = 32;

/// Progress record used to resume recovery after a crash.
#[derive(Debug, Clone, Copy, PartialEq, Eq, Structural)]
pub struct RecoveryCursor {
    pub version: u32,
    pub snapshot_generation: u64,
    pub wal_segment_id: u64,
    pub wal_offset: u64,
    pub checksum: u32,
}

impl Default for RecoveryCursor {
    fn default() -> (r: RecoveryCursor)
        ensures
            r == (RecoveryCursor {
                version: 1,
                snapshot_generation: 0,
                wal_segment_id: 0,
                wal_offset: 0,
                checksum: 0,
            }),
    {
        RecoveryCursor { version: 1, snapshot_generation: 0, wal_segment_id: 0, wal_offset: 0, checksum: 0 }
    }
}

/// The bytes that the cursor checksum covers: version, generation, segment
/// and offset, little-endian.
pub open spec fn cursor_checked_bytes(c: RecoveryCursor) -> Seq<u8> {
    spec_u32_to_le_bytes(c.version) + spec_u64_to_le_bytes(c.snapshot_generation)
        + spec_u64_to_le_bytes(c.wal_segment_id) + spec_u64_to_le_bytes(c.wal_offset)
}

/// The stored record: the checked bytes followed by the checksum.
pub open spec fn cursor_bytes(c: RecoveryCursor) -> Seq<u8> {
    cursor_checked_bytes(c) + spec_u32_to_le_bytes(c.checksum)
}

/// The cursor read back from the first 32 bytes of a record.
pub open spec fn cursor_of_bytes(b: Seq<u8>) -> RecoveryCursor {
    RecoveryCursor {
        version: spec_u32_from_le_bytes(b.subrange(0, 4)),
        snapshot_generation: spec_u64_from_le_bytes(b.subrange(4, 12)),
        wal_segment_id: spec_u64_from_le_bytes(b.subrange(12, 20)),
        wal_offset: spec_u64_from_le_bytes(b.subrange(20, 28)),
        checksum: spec_u32_from_le_bytes(b.subrange(28, 32)),
    }
}

impl RecoveryCursor {
    /// The 32-byte stored form.
    pub fn encode(&self) -> (r: Vec<u8>)
        ensures
            r@ == cursor_bytes(*self),
            r@.len() == CURSOR_RECORD_LEN,
    {
        proof { lemma_le_round_trips(); }
        let mut buf: Vec<u8> = Vec::new();
        put_u32(&mut buf, self.version);
        put_u64(&mut buf, self.snapshot_generation);
        put_u64(&mut buf, self.wal_segment_id);
        put_u64(&mut buf, self.wal_offset);
        put_u32(&mut buf, self.checksum);
        assert(buf@ =~= cursor_bytes(*self));
        buf
    }

    /// Reads a cursor from the first 32 bytes of a stored record.
    pub fn decode(buf: &[u8]) -> (r: RecoveryCursor)
        requires
            buf@.len() >= CURSOR_RECORD_LEN,
        ensures
            r == cursor_of_bytes(buf@),
    {
        RecoveryCursor {
            version: get_u32(buf, 0),
            snapshot_generation: get_u64(buf, 4),
            wal_segment_id: get_u64(buf, 12),
            wal_offset: get_u64(buf, 20),
            checksum: get_u32(buf, 28),
        }
    }

    /// CRC32 over version, generation, segment and offset.
    pub fn compute_checksum(&self) -> (r: u32)
        ensures
            r == crc32_of(cursor_checked_bytes(*self)),
    {
        let mut buf: Vec<u8> = Vec::new();
        put_u32(&mut buf, self.version);
        put_u64(&mut buf, self.snapshot_generation);
        put_u64(&mut buf, self.wal_segment_id);
        put_u64(&mut buf, self.wal_offset);
        assert(buf@ =~= cursor_checked_bytes(*self));
        checksum(buf.as_slice())
    }
}

/// Reading back a stored cursor gives the cursor that was stored.
pub proof fn lemma_cursor_round_trip(c: RecoveryCursor)
    ensures
        cursor_bytes(c).len() == CURSOR_RECORD_LEN,
        cursor_of_bytes(cursor_bytes(c)) == c,
{
    lemma_le_round_trips();
    let b = cursor_bytes(c);
    assert(b.subrange(0, 4) =~= spec_u32_to_le_bytes(c.version));
    assert(b.subrange(4, 12) =~= spec_u64_to_le_bytes(c.snapshot_generation));
    assert(b.subrange(12, 20) =~= spec_u64_to_le_bytes(c.wal_segment_id));
    assert(b.subrange(20, 28) =~= spec_u64_to_le_bytes(c.wal_offset));
    assert(b.subrange(28, 32) =~= spec_u32_to_le_bytes(c.checksum));
}

} // verus!
