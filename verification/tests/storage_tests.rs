use rookeeper::layout::{checksum, StorageLayout};
use rookeeper::snapshot::{latest_snapshot_file, Snapshot, SnapshotManager};
use rookeeper::state::RecoveryCursor;
use rookeeper::strmap::StrMap;
use rookeeper::wal::{OpType, WalEntry, WalError, WalWriter};

#[test]
fn builds_expected_layout() {
    let layout = StorageLayout::from_root("data");
    assert!(layout
        .wal_segment_path(7)
        .ends_with("wal-0000000000000007.log"));
    assert!(layout
        .snapshot_path(3)
        .ends_with("snapshot-0000000000000003.bin"));
}

#[test]
fn checksum_is_stable() {
    assert_eq!(checksum(b"rookeeper"), 2_164_299_473);
}

#[test]
fn layout_paths_are_joined_under_root() {
    let layout = StorageLayout::from_root("/var/lib/rk");
    assert_eq!(layout.wal_dir, "/var/lib/rk/wal");
    assert_eq!(layout.snapshot_dir, "/var/lib/rk/snapshot");
    assert_eq!(layout.state_dir, "/var/lib/rk/state");
    assert_eq!(layout.lock_file, "/var/lib/rk/rookeeper.lock");
    assert_eq!(layout.wal_segment_path(12345), "/var/lib/rk/wal/wal-0000000000012345.log");
    assert_eq!(layout.snapshot_path(u64::MAX), "/var/lib/rk/snapshot/snapshot-18446744073709551615.bin");
    assert_eq!(layout.state_path("cluster"), "/var/lib/rk/state/cluster.meta");
}

#[test]
fn test_snapshot_encode_decode() {
    let mut state = StrMap::new();
    state.insert("key1".to_string(), vec![1, 2, 3]);
    state.insert("key2".to_string(), vec![4, 5, 6]);

    let snapshot = Snapshot::from_state(1, state);
    let encoded = snapshot.encode();
    let decoded = Snapshot::decode(&encoded).unwrap();

    assert_eq!(decoded.generation, snapshot.generation);
    assert_eq!(decoded.state.len(), 2);
    assert_eq!(decoded.state.get("key1"), Some(&vec![1, 2, 3]));
}

#[test]
fn test_snapshot_metadata() {
    let mut snapshot = Snapshot::new(1);
    snapshot.set_metadata("author".to_string(), "test".to_string());
    assert_eq!(snapshot.get_metadata("author"), Some(&"test".to_string()));
}

#[test]
fn snapshot_round_trip_keeps_metadata() {
    let mut snapshot = Snapshot::new(9);
    snapshot.set_metadata("owner".to_string(), "ops".to_string());
    snapshot.set_metadata("note".to_string(), "nightly".to_string());
    let decoded = Snapshot::decode(&snapshot.encode()).unwrap();
    assert_eq!(decoded.generation, 9);
    assert_eq!(decoded.state.len(), 0);
    assert_eq!(decoded.get_metadata("owner"), Some(&"ops".to_string()));
    assert_eq!(decoded.get_metadata("note"), Some(&"nightly".to_string()));
}

#[test]
fn snapshot_encoding_layout() {
    let mut state = StrMap::new();
    state.insert("k".to_string(), vec![7]);
    let snapshot = Snapshot::from_state(2, state);
    let encoded = snapshot.encode();
    assert_eq!(&encoded[0..8], &2u64.to_le_bytes());
    assert_eq!(&encoded[8..12], &1u32.to_le_bytes());
    assert_eq!(&encoded[12..16], &1u32.to_le_bytes());
    assert_eq!(encoded[16], b'k');
}

#[test]
fn snapshot_manager_stamps_and_names() {
    let mut manager = SnapshotManager::new(StorageLayout::from_root("d"));
    manager.set_current_generation(4);
    assert_eq!(manager.current_generation(), 4);
    let snapshot = manager.create_snapshot(StrMap::new()).unwrap();
    assert_eq!(snapshot.generation, 5);
    let stamp = snapshot.get_metadata("created_at").unwrap();
    assert!(!stamp.is_empty());
    assert!(stamp.chars().all(|c| c.is_ascii_digit()));
    let (path, bytes) = manager.save_snapshot(&snapshot);
    assert_eq!(path, "d/snapshot/snapshot-0000000000000005.bin");
    assert_eq!(bytes, snapshot.encode());
    let cursor = manager.get_recovery_cursor(3, 99);
    assert_eq!(cursor.snapshot_generation, 4);
    assert_eq!(cursor.wal_segment_id, 3);
    assert_eq!(cursor.wal_offset, 99);
    assert_eq!(cursor.checksum, cursor.compute_checksum());
}

#[test]
fn picks_the_latest_snapshot_file() {
    let names: Vec<String> = vec![
        "snapshot-0000000000000002.bin".to_string(),
        "wal-0000000000000009.log".to_string(),
        "snapshot-0000000000000010.bin".to_string(),
        "snapshot-0000000000000003.tmp".to_string(),
    ];
    assert_eq!(latest_snapshot_file(&names), Some(2));
    let none: Vec<String> = vec!["notes.txt".to_string()];
    assert_eq!(latest_snapshot_file(&none), None);
}

#[test]
fn test_default_cursor() {
    let cursor = RecoveryCursor::default();
    assert_eq!(cursor.version, 1);
    assert_eq!(cursor.snapshot_generation, 0);
    assert_eq!(cursor.wal_segment_id, 0);
    assert_eq!(cursor.wal_offset, 0);
}

#[test]
fn cursor_bytes_round_trip() {
    let cursor = RecoveryCursor {
        version: 1,
        snapshot_generation: 100,
        wal_segment_id: 5,
        wal_offset: 12345,
        checksum: 0,
    };
    let bytes = cursor.encode();
    assert_eq!(bytes.len(), 32);
    assert_eq!(RecoveryCursor::decode(&bytes), cursor);
    let mut stamped = cursor;
    stamped.checksum = stamped.compute_checksum();
    assert_ne!(stamped.checksum, 0);
    assert_eq!(RecoveryCursor::decode(&stamped.encode()), stamped);
}

#[test]
fn test_optype_conversion() {
    assert_eq!(OpType::from_u8(1), Some(OpType::Create));
    assert_eq!(OpType::from_u8(2), Some(OpType::SetValue));
    assert_eq!(OpType::from_u8(3), Some(OpType::Delete));
    assert_eq!(OpType::from_u8(99), None);
}

#[test]
fn optype_bytes_round_trip() {
    for b in 1u8..=9 {
        assert_eq!(OpType::from_u8(b).unwrap().to_u8(), b);
    }
    assert_eq!(OpType::from_u8(0), None);
}

#[test]
fn test_wal_entry_encode_decode() {
    let entry = WalEntry::new(
        1,
        100,
        OpType::SetValue,
        "/test/path".to_string(),
        Some(vec![1, 2, 3]),
        Some(3600),
    );

    let encoded = entry.encode();
    let decoded = WalEntry::decode(&encoded).unwrap();

    assert_eq!(decoded.term, entry.term);
    assert_eq!(decoded.index, entry.index);
    assert_eq!(decoded.op_type, entry.op_type);
    assert_eq!(decoded.path, entry.path);
    assert_eq!(decoded.value, entry.value);
    assert_eq!(decoded.ttl_seconds, entry.ttl_seconds);
}

#[test]
fn test_wal_entry_checksum() {
    let entry = WalEntry::new(1, 100, OpType::Create, "/test".to_string(), None, None);

    assert!(entry.verify_checksum());

    let mut tampered = entry.clone();
    tampered.term = 999;
    assert!(!tampered.verify_checksum());
}

#[test]
fn wal_decode_reports_corruption() {
    let entry = WalEntry::new(2, 3, OpType::Delete, "/x".to_string(), None, None);
    let mut bytes = entry.encode();
    let last = bytes.len() - 1;
    bytes[last] ^= 0xff;
    match WalEntry::decode(&bytes) {
        Err(WalError::ChecksumMismatch { expected, actual }) => assert_ne!(expected, actual),
        _ => panic!("expected a checksum mismatch"),
    }
    let mut bad_op = entry.encode();
    bad_op[16] = 42;
    assert!(matches!(WalEntry::decode(&bad_op), Err(WalError::InvalidOpType(42))));
}

#[test]
fn wal_writer_tracks_offsets_and_rolls() {
    let mut writer = WalWriter::new(7, 100, 10);
    assert_eq!(writer.segment_id(), 7);
    assert_eq!(writer.offset(), 10);
    assert!(!writer.should_roll());
    let entry = WalEntry::new(1, 1, OpType::Create, "/a".to_string(), Some(vec![1; 120]), None);
    let mut sink: Vec<u8> = Vec::new();
    let at = writer.write(&entry, |bytes| {
        sink.extend_from_slice(&bytes);
        Ok(())
    }).unwrap();
    assert_eq!(at, 10 + sink.len() as u64);
    assert_eq!(writer.offset(), 10 + sink.len() as u64);
    assert!(writer.should_roll());
    let failed = writer.write(&entry, |_| Err(std::io::Error::new(std::io::ErrorKind::Other, "disk full")));
    assert!(failed.is_err());
    assert_eq!(writer.offset(), 10 + sink.len() as u64);
    let mut opened = 0u64;
    writer.roll(|| Ok(()), |id| {
        opened = id;
        Ok(())
    }).unwrap();
    assert_eq!(opened, 8);
    assert_eq!(writer.segment_id(), 8);
    assert_eq!(writer.offset(), 0);
}

#[test]
fn snapshot_decodability_follows_the_recorded_lengths() {
    let mut state = StrMap::new();
    state.insert("key1".to_string(), vec![1, 2, 3]);
    let mut snapshot = Snapshot::from_state(4, state);
    snapshot.set_metadata("created_at".to_string(), "42".to_string());
    let encoded = snapshot.encode();
    assert!(Snapshot::is_decodable(&encoded));
    assert!(!Snapshot::is_decodable(&encoded[..11]));
    assert!(!Snapshot::is_decodable(&encoded[..encoded.len() - 1]));
    // A state key that is not UTF-8 stops decoding before any length is overrun.
    let mut bad_key = encoded.clone();
    bad_key[16] = 0xff;
    assert!(Snapshot::is_decodable(&bad_key));
    assert!(Snapshot::decode(&bad_key).is_err());
    // A record count larger than the records present runs past the end.
    let mut too_many = encoded.clone();
    too_many[8] = 5;
    assert!(!Snapshot::is_decodable(&too_many));
}

#[test]
fn wal_decodability_follows_the_recorded_lengths() {
    let entry = WalEntry::new(1, 2, OpType::Create, "/a/b".to_string(), Some(vec![7, 8]), Some(30));
    let bytes = entry.encode();
    assert!(WalEntry::is_decodable(&bytes));
    assert!(!WalEntry::is_decodable(&bytes[..16]));
    assert!(!WalEntry::is_decodable(&bytes[..bytes.len() - 1]));
    let mut unknown_op = bytes.clone();
    unknown_op[16] = 42;
    assert!(WalEntry::is_decodable(&unknown_op[..17]));
    let plain = WalEntry::new(1, 2, OpType::Delete, "/a".to_string(), None, None);
    let plain_bytes = plain.encode();
    assert!(WalEntry::is_decodable(&plain_bytes));
    assert!(!WalEntry::is_decodable(&plain_bytes[..plain_bytes.len() - 1]));
}

#[test]
fn snapshot_names_sort_by_generation() {
    let layout = StorageLayout::from_root("data");
    let gens = [0u64, 1, 9, 10, 99, 100, 12345, 9_999_999_999_999_999];
    for pair in gens.windows(2) {
        assert!(layout.snapshot_path(pair[0]) < layout.snapshot_path(pair[1]));
    }
}

#[test]
fn checksum_is_ieee_crc32() {
    assert_eq!(checksum(b"123456789"), 0xCBF4_3926);
    assert_eq!(checksum(b""), 0);
}

#[test]
fn segments_decode_entry_after_entry() {
    let a = WalEntry::new(1, 1, OpType::Create, "/a".to_string(), Some(vec![1, 2]), None);
    let b = WalEntry::new(1, 2, OpType::Delete, "/a".to_string(), None, Some(5));
    let mut segment = a.encode();
    segment.extend_from_slice(&b.encode());
    let entries = WalEntry::decode_segment(&segment).unwrap();
    assert_eq!(entries.len(), 2);
    assert_eq!(entries[0].index, 1);
    assert_eq!(entries[0].value, Some(vec![1, 2]));
    assert_eq!(entries[1].op_type, OpType::Delete);
    assert_eq!(entries[1].ttl_seconds, Some(5));
    assert!(WalEntry::decode_segment(&[]).unwrap().is_empty());
    assert!(matches!(WalEntry::decode_segment(&segment[..segment.len() - 1]), Err(WalError::EncodeError(_))));
    let mut corrupt = segment.clone();
    let last = corrupt.len() - 1;
    corrupt[last] ^= 1;
    assert!(matches!(WalEntry::decode_segment(&corrupt), Err(WalError::ChecksumMismatch { .. })));
}
