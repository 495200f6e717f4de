use rookeeper::backpressure::{DeliveryManager, SendOutcome};
use rookeeper::bootstrap::ServerBootstrap;
use rookeeper::config::{RuntimeMode, ServiceConfig, TransportMode};
use rookeeper::error::ErrorCode;
use rookeeper::lock::{LockGrant, LockManager, LockMode};
use rookeeper::model::NodePath;
use rookeeper::platform::OperatingSystem;
use rookeeper::recovery::{LockFileOutcome, RecoveryError, RecoveryManager, ReplayContext};
use rookeeper::registry::{HealthStatus, ServiceInstance, ServiceRegistry};
use rookeeper::acl::Permission;
use rookeeper::server::{CreateRequest, DeleteRequest, GetRequest, ListRequest, RequestBody, ResponseBody, RookeeperServer, SetRequest, WatchRequest};
use rookeeper::session::{SessionManager, SessionState};
use rookeeper::layout::StorageLayout;
use rookeeper::state::RecoveryCursor;
use rookeeper::tree_kv::{TreeKv, TreeKvError, TreeKvEvent};
use rookeeper::wal::{OpType, WalEntry};
use rookeeper::watch::{PathPattern, WatchEvent, WatchEventKind, WatchManager};
use rookeeper::client::{read_response_header, ClientBootstrap};
use rookeeper::wire::{parse_header, FrameHeader, RequestKind, ResponseFrame, FRAME_HEADER_LEN};

use std::collections::HashMap;
use std::sync::Arc;

fn path(p: &str) -> NodePath {
    NodePath::parse(p).unwrap()
}

// ---- bootstrap ----

#[test]
fn derives_storage_layout_from_config() {
    let bootstrap = ServerBootstrap::from_config(ServiceConfig::default(), OperatingSystem::Linux);
    assert!(bootstrap.storage_layout.root.ends_with("data"));
}

#[test]
fn bootstrap_endpoint_and_summary() {
    let bootstrap = ServerBootstrap::from_config(ServiceConfig::default(), OperatingSystem::Linux);
    assert_eq!(bootstrap.endpoint, "unix:///tmp/rookeeper.sock");
    assert_eq!(bootstrap.summary(), "node=local-node endpoint=unix:///tmp/rookeeper.sock data_root=./data");
    let mut config = ServiceConfig::default();
    config.server.primary_transport = TransportMode::LocalTcp;
    let bootstrap = ServerBootstrap::from_config(config, OperatingSystem::Windows);
    assert_eq!(bootstrap.endpoint, "tcp://127.0.0.1:9641/rookeeper");
    assert_eq!(bootstrap.storage_layout.wal_dir, "./data/wal");
}

// ---- recovery ----

#[test]
fn test_recovery_cursor_default() {
    let cursor = RecoveryCursor::default();
    assert_eq!(cursor.version, 1);
    assert_eq!(cursor.snapshot_generation, 0);
    assert_eq!(cursor.wal_segment_id, 0);
    assert_eq!(cursor.wal_offset, 0);
}

#[test]
fn recovery_cursor_from_stored_bytes() {
    let manager = RecoveryManager::new(StorageLayout::from_root("data"));
    assert_eq!(manager.load_recovery_cursor(None).unwrap(), RecoveryCursor::default());
    let cursor = RecoveryCursor { version: 1, snapshot_generation: 2, wal_segment_id: 3, wal_offset: 4, checksum: 5 };
    assert_eq!(manager.load_recovery_cursor(Some(cursor.encode())).unwrap(), cursor);
    assert!(matches!(manager.load_recovery_cursor(Some(vec![1, 2, 3])), Err(RecoveryError::IoError(_))));
}

#[test]
fn recovery_lock_file_outcomes() {
    let mut manager = RecoveryManager::new(StorageLayout::from_root("data"));
    let busy = manager.acquire_lock(|| LockFileOutcome::AlreadyExists);
    assert!(matches!(busy, Err(RecoveryError::LockFailed)));
    let broken = manager.acquire_lock(|| LockFileOutcome::Failed(std::io::Error::new(std::io::ErrorKind::PermissionDenied, "denied")));
    match broken {
        Err(RecoveryError::IoError(e)) => assert_eq!(e.kind(), std::io::ErrorKind::PermissionDenied),
        _ => panic!("expected the I/O error"),
    }
    let mut removed = false;
    assert!(manager.release_lock(|| { removed = true; Ok(()) }).is_ok());
    assert!(!removed);
    assert!(manager.acquire_lock(|| LockFileOutcome::Created).is_ok());
    assert!(manager.release_lock(|| { removed = true; Ok(()) }).is_ok());
    assert!(removed);
}

#[test]
fn server_and_client_bootstrap_agree() {
    let modes = [TransportMode::Auto, TransportMode::UnixDomainSocket, TransportMode::NamedPipe, TransportMode::LocalTcp];
    let systems = [OperatingSystem::Windows, OperatingSystem::Linux, OperatingSystem::Other];
    for mode in modes {
        for os in systems {
            let mut config = ServiceConfig::default();
            config.server.primary_transport = mode;
            config.storage.root_dir = "/var/lib/rk".to_string();
            let server = ServerBootstrap::from_config(config.clone(), os);
            let client = ClientBootstrap::from_config(&config, os);
            assert_eq!(server.endpoint, client.options.endpoint);
            assert_eq!(server.storage_layout, StorageLayout::from_root(&config.storage.root_dir));
            assert_eq!(server.config, config);
        }
    }
    let default_server = ServerBootstrap::from_config(ServiceConfig::default(), OperatingSystem::Windows);
    assert!(default_server.storage_layout.root.ends_with("data"));
    assert_eq!(default_server.endpoint, "pipe://./pipe/rookeeper");
}

#[test]
fn replay_applies_entries_after_offset() {
    let manager = RecoveryManager::new(StorageLayout::from_root("data"));
    let mut tree = TreeKv::new();
    let entries = vec![
        WalEntry::new(1, 1, OpType::Create, "/a".to_string(), Some(b"one".to_vec()), None),
        WalEntry::new(1, 2, OpType::Create, "/b".to_string(), Some(b"two".to_vec()), None),
        WalEntry::new(1, 3, OpType::SetValue, "/b".to_string(), Some(b"2".to_vec()), None),
        WalEntry::new(1, 4, OpType::Create, "/../bad".to_string(), None, None),
        WalEntry::new(1, 5, OpType::Delete, "/a".to_string(), None, None),
        WalEntry::new(1, 6, OpType::AcquireLock, "/c".to_string(), None, None),
    ];
    let segments = vec![(0u64, entries, 300u64)];
    assert_eq!(manager.replay_wal(&mut tree, 0, 1, &segments), Some((0, 300)));
    assert_eq!(tree.len(), 1);
    assert!(matches!(tree.get(&path("/a"), "system"), Err(TreeKvError::PathNotFound)));
    let b = tree.get(&path("/b"), "system").unwrap();
    assert_eq!(b.value, b"2".to_vec());
    assert_eq!(b.metadata.version, 2);
    assert_eq!(tree.command_id(), 2);

    let mut all = TreeKv::new();
    assert_eq!(manager.replay_wal(&mut all, 0, 100, &segments), Some((0, 300)));
    assert_eq!(all.len(), 0);
}

#[test]
fn replay_in_two_parts_matches_replay_whole() {
    let manager = RecoveryManager::new(StorageLayout::from_root("data"));
    let log = || {
        vec![
            WalEntry::new(1, 1, OpType::Create, "/a".to_string(), Some(b"one".to_vec()), None),
            WalEntry::new(1, 2, OpType::Create, "/b".to_string(), Some(b"two".to_vec()), None),
            WalEntry::new(1, 3, OpType::SetValue, "/a".to_string(), Some(b"uno".to_vec()), None),
            WalEntry::new(1, 4, OpType::Delete, "/b".to_string(), None, None),
        ]
    };
    let mut whole = TreeKv::new();
    assert_eq!(manager.replay_wal(&mut whole, 2, 0, &vec![(2u64, log(), 90u64)]), Some((2, 90)));

    let mut entries = log();
    let rest = entries.split_off(2);
    let mut parts = TreeKv::new();
    assert_eq!(manager.replay_wal(&mut parts, 2, 0, &vec![(2u64, entries, 40u64)]), Some((2, 40)));
    assert_eq!(manager.replay_wal(&mut parts, 3, 0, &vec![(3u64, rest, 50u64)]), Some((3, 50)));

    assert_eq!(whole.len(), parts.len());
    assert_eq!(whole.command_id(), parts.command_id());
    assert_eq!(whole.get(&path("/a"), "system").unwrap().value, b"uno".to_vec());
    assert_eq!(parts.get(&path("/a"), "system").unwrap().value, b"uno".to_vec());
    assert_eq!(parts.get(&path("/a"), "system").unwrap().metadata.version, 2);
    assert!(matches!(parts.get(&path("/b"), "system"), Err(TreeKvError::PathNotFound)));
}

#[test]
fn recovery_restores_snapshot_then_replays_later_segments() {
    let manager = RecoveryManager::new(StorageLayout::from_root("data"));
    let mut base = TreeKv::new();
    base.create(&path("/s"), b"snap".to_vec(), "system").unwrap();
    let snapshot = base.create_snapshot();

    let mut cursor = RecoveryCursor::default();
    cursor.wal_segment_id = 4;
    cursor.wal_offset = 1;
    let segments = vec![
        (4u64, vec![
            WalEntry::new(1, 1, OpType::Create, "/s".to_string(), Some(b"old".to_vec()), None),
            WalEntry::new(1, 2, OpType::Create, "/a".to_string(), Some(b"one".to_vec()), None),
        ], 120u64),
        (5u64, vec![
            WalEntry::new(1, 3, OpType::SetValue, "/s".to_string(), Some(b"new".to_vec()), None),
        ], 57u64),
    ];
    let mut tree = TreeKv::new();
    tree.create(&path("/gone"), Vec::new(), "system").unwrap();
    let next = manager.recover_from(&mut tree, &cursor, Some(&snapshot), &segments).unwrap();

    assert_eq!(tree.len(), 2);
    assert!(matches!(tree.get(&path("/gone"), "system"), Err(TreeKvError::PathNotFound)));
    assert_eq!(tree.get(&path("/a"), "system").unwrap().value, b"one".to_vec());
    let s = tree.get(&path("/s"), "system").unwrap();
    assert_eq!(s.value, b"new".to_vec());
    assert_eq!(s.metadata.version, 2);
    assert_eq!(tree.command_id(), 3);

    assert_eq!(next.wal_segment_id, 5);
    assert_eq!(next.wal_offset, 57);
    assert_eq!(next.snapshot_generation, 0);
    assert_eq!(next.checksum, next.compute_checksum());
    assert_ne!(next.checksum, 0);
}

#[test]
fn recovery_stops_when_the_command_id_is_used_up() {
    let manager = RecoveryManager::new(StorageLayout::from_root("data"));
    let mut snapshot = TreeKv::new().create_snapshot();
    snapshot.max_command_id = u64::MAX;
    let segments = vec![
        (0u64, vec![
            WalEntry::new(1, 1, OpType::Delete, "/none".to_string(), None, None),
            WalEntry::new(1, 2, OpType::Create, "/a".to_string(), Some(b"one".to_vec()), None),
        ], 80u64),
    ];
    let mut tree = TreeKv::new();
    let cursor = RecoveryCursor::default();
    assert_eq!(manager.recover_from(&mut tree, &cursor, Some(&snapshot), &segments), None);
    assert_eq!(tree.len(), 0);
    assert_eq!(tree.command_id(), u64::MAX);
}

#[test]
fn recovery_without_segments_keeps_the_cursor_segment() {
    let manager = RecoveryManager::new(StorageLayout::from_root("data"));
    let mut cursor = RecoveryCursor::default();
    cursor.wal_segment_id = 7;
    cursor.wal_offset = 3;
    let mut tree = TreeKv::new();
    let next = manager.recover_from(&mut tree, &cursor, None, &Vec::new()).unwrap();
    assert_eq!(tree.len(), 0);
    assert_eq!(next.wal_segment_id, 7);
    assert_eq!(next.wal_offset, 0);
    assert_eq!(next.checksum, next.compute_checksum());
}

#[test]
fn replay_context_moves() {
    let mut ctx = ReplayContext::new(TreeKv::new());
    assert_eq!((ctx.wal_segment_id, ctx.wal_offset), (0, 0));
    ctx.update_position(4, 17);
    assert_eq!((ctx.wal_segment_id, ctx.wal_offset), (4, 17));
}

// ---- tree ----

#[test]
fn test_create_and_get() {
    let mut tree = TreeKv::new();
    let path = NodePath::parse("/test/node").unwrap();

    tree.create(&path, b"value".to_vec(), "user").unwrap();

    let node = tree.get(&path, "user").unwrap();
    assert_eq!(node.value.as_slice(), b"value");
    assert_eq!(node.metadata.version, 1);
}

#[test]
fn test_version_conflict() {
    let mut tree = TreeKv::new();
    let path = NodePath::parse("/test/node").unwrap();

    tree.create(&path, b"value".to_vec(), "user").unwrap();

    let result = tree.set(&path, b"new".to_vec(), Some(999), "user");
    assert!(matches!(result, Err(TreeKvError::VersionConflict)));

    tree.set(&path, b"new".to_vec(), Some(1), "user").unwrap();
    let node = tree.get(&path, "user").unwrap();
    assert_eq!(node.value.as_slice(), b"new");
    assert_eq!(node.metadata.version, 2);
}

#[test]
fn test_delete() {
    let mut tree = TreeKv::new();
    let path = NodePath::parse("/test/node").unwrap();

    tree.create(&path, b"value".to_vec(), "user").unwrap();
    tree.delete(&path, "user").unwrap();

    let result = tree.get(&path, "user");
    assert!(matches!(result, Err(TreeKvError::PathNotFound)));
}

#[test]
fn test_list_children() {
    let mut tree = TreeKv::new();

    tree.create(&NodePath::parse("/parent/child1").unwrap(), b"v1".to_vec(), "user").unwrap();
    tree.create(&NodePath::parse("/parent/child2").unwrap(), b"v2".to_vec(), "user").unwrap();
    tree.create(&NodePath::parse("/parent/child3").unwrap(), b"v3".to_vec(), "user").unwrap();
    tree.create(&NodePath::parse("/other").unwrap(), b"v".to_vec(), "user").unwrap();

    let children = tree.list_children(&NodePath::parse("/parent").unwrap());
    assert_eq!(children.len(), 3);

    let child_paths: Vec<_> = children.iter().map(|p| p.as_str().to_string()).collect();
    assert!(child_paths.contains(&"/parent/child1".to_string()));
    assert!(child_paths.contains(&"/parent/child2".to_string()));
    assert!(child_paths.contains(&"/parent/child3".to_string()));
}

#[test]
fn test_snapshot_and_restore() {
    let mut tree = TreeKv::new();
    tree.create(&NodePath::parse("/test/node1").unwrap(), b"v1".to_vec(), "user").unwrap();
    tree.create(&NodePath::parse("/test/node2").unwrap(), b"v2".to_vec(), "user").unwrap();

    let snapshot = tree.create_snapshot();

    let mut restored = TreeKv::new();
    restored.restore_from_snapshot(&snapshot);

    assert_eq!(restored.len(), 2);
    assert_eq!(
        restored.get(&NodePath::parse("/test/node1").unwrap(), "user").unwrap().value.as_slice(),
        b"v1"
    );
}

#[test]
fn children_come_in_path_order() {
    let mut tree = TreeKv::new();
    for p in ["/p/c", "/p/a/deep", "/p/b", "/p/a", "/q"] {
        tree.create(&path(p), Vec::new(), "u").unwrap();
    }
    let names: Vec<String> = tree.list_children(&path("/p")).iter().map(|p| p.as_str().to_string()).collect();
    assert_eq!(names, vec!["/p/a".to_string(), "/p/b".to_string(), "/p/c".to_string()]);
    assert!(matches!(tree.list(&path("/missing"), "u"), Err(TreeKvError::PathNotFound)));
    let root_children: Vec<String> = tree.list_children(&path("/")).iter().map(|p| p.as_str().to_string()).collect();
    assert_eq!(root_children, vec!["/q".to_string()]);
}

#[test]
fn command_ids_count_operations() {
    let mut tree = TreeKv::new();
    assert!(tree.is_empty());
    tree.create(&path("/a"), vec![1], "u").unwrap();
    assert!(matches!(tree.create(&path("/a"), vec![2], "u"), Err(TreeKvError::PathAlreadyExists)));
    assert_eq!(tree.command_id(), 1);
    assert!(matches!(tree.set(&path("/b"), vec![2], None, "u"), Err(TreeKvError::PathNotFound)));
    assert_eq!(tree.command_id(), 2);
    tree.set(&path("/a"), vec![3], None, "u").unwrap();
    let node = tree.get(&path("/a"), "u").unwrap();
    assert_eq!(node.metadata.create_command_id, 1);
    assert_eq!(node.metadata.modify_command_id, 3);
    assert!(matches!(tree.delete(&path("/b"), "u"), Err(TreeKvError::PathNotFound)));
    assert_eq!(ErrorCode::from(TreeKvError::VersionConflict), ErrorCode::VersionConflict);
}

// ---- watch ----

#[test]
fn test_exact_pattern_match() {
    let pattern = PathPattern::Exact(NodePath::parse("/test/node").unwrap());
    let matching = NodePath::parse("/test/node").unwrap();
    let non_matching = NodePath::parse("/test/other").unwrap();

    assert!(pattern.matches(&matching));
    assert!(!pattern.matches(&non_matching));
}

#[test]
fn test_glob_pattern_single_star() {
    let pattern = PathPattern::Glob("/parent/*".to_string());
    let matching = NodePath::parse("/parent/child1").unwrap();
    let non_matching = NodePath::parse("/parent/child1/grandchild").unwrap();

    assert!(pattern.matches(&matching));
    assert!(!pattern.matches(&non_matching));
}

#[test]
fn test_glob_pattern_double_star() {
    let pattern = PathPattern::Glob("/parent/**".to_string());
    let matching1 = NodePath::parse("/parent/child1").unwrap();
    let matching2 = NodePath::parse("/parent/child1/grandchild").unwrap();
    let non_matching = NodePath::parse("/other/node").unwrap();

    assert!(pattern.matches(&matching1));
    assert!(pattern.matches(&matching2));
    assert!(!pattern.matches(&non_matching));
}

#[test]
fn glob_edge_cases() {
    assert!(PathPattern::glob_match("**", "/anything/at/all"));
    assert!(PathPattern::glob_match("/**", "/x"));
    assert!(PathPattern::glob_match("/parent/**", "/parent"));
    assert!(PathPattern::glob_match("/parent/**", "/parent/a/b"));
    assert!(!PathPattern::glob_match("/parent/**", "/paren"));
    assert!(!PathPattern::glob_match("/parent/**", "/parentX"));
    assert!(PathPattern::glob_match("/parent/*", "/parent"));
    assert!(PathPattern::glob_match("/parent/*", "/parent/a"));
    assert!(!PathPattern::glob_match("/parent/*", "/parentX"));
    assert!(!PathPattern::glob_match("/parent/*", "/parent/a/b"));
    assert!(PathPattern::glob_match("/*", "/x"));
    assert!(!PathPattern::glob_match("/*", "/x/y"));
    assert!(!PathPattern::glob_match("/a*b", "/a*b"));
    assert!(PathPattern::glob_match("/exact", "/exact"));
    assert!(!PathPattern::glob_match("/exact", "/exact/child"));
}

#[test]
fn test_watch_manager_registration() {
    let mut manager = WatchManager::new();

    let session_id = 123;
    manager.register_watch(session_id, NodePath::parse("/test").unwrap(), false);
    manager.register_watch(session_id, NodePath::parse("/parent").unwrap(), true);

    assert_eq!(manager.session_count(), 1);
    assert_eq!(manager.subscription_count(), 2);
}

#[test]
fn test_matching_subscriptions() {
    let mut manager = WatchManager::new();

    let session1 = 1;
    let session2 = 2;

    manager.register_watch(session1, NodePath::parse("/test").unwrap(), false);
    manager.register_watch(session2, NodePath::parse("/parent").unwrap(), true);

    let matching = manager.matching_subscriptions(&NodePath::parse("/test").unwrap());
    assert!(matching.contains(&session1));
    assert!(!matching.contains(&session2));

    let matching = manager.matching_subscriptions(&NodePath::parse("/parent/child").unwrap());
    assert!(matching.contains(&session2));
}

#[test]
fn watch_registration_indices_and_removal() {
    let mut manager = WatchManager::new();
    assert_eq!(manager.register_watch(5, path("/a"), false), 0);
    assert_eq!(manager.register_watch(5, path("/b"), false), 1);
    assert_eq!(manager.register_watch(6, path("/"), true), 0);
    assert!(manager.matching_subscriptions(&path("/zzz")).contains(&6));
    assert!(manager.unregister_watch(5, 0));
    assert!(!manager.unregister_watch(5, 4));
    assert!(!manager.unregister_watch(9, 0));
    assert_eq!(manager.subscription_count(), 2);
    assert_eq!(manager.matching_subscriptions(&path("/b")), vec![5, 6]);
    manager.unregister_session(5);
    assert_eq!(manager.matching_subscriptions(&path("/b")), vec![6]);
    assert_eq!(manager.session_count(), 1);
}

#[test]
fn recursive_watch_on_non_ascii_path() {
    let mut manager = WatchManager::new();
    manager.register_watch(1, path("/数据"), true);
    manager.register_watch(1, path("/数据/x"), false);
    assert_eq!(manager.matching_subscriptions(&path("/数据/x")), vec![1]);
    assert!(manager.matching_subscriptions(&path("/数据")).contains(&1));
    assert!(manager.matching_subscriptions(&path("/other")).is_empty());
    assert!(manager.matching_subscriptions(&path("/数")).is_empty());
}

#[test]
fn watch_events_from_tree_events() {
    let created = WatchEvent::from_tree_kv_event(&TreeKvEvent::NodeCreated(path("/n")), 3).unwrap();
    assert_eq!(created.kind, WatchEventKind::NodeCreated);
    assert_eq!(created.path.as_str(), "/n");
    assert_eq!(created.session_id, 3);
    let deleted = WatchEvent::from_tree_kv_event(&TreeKvEvent::NodeDeleted(path("/n")), 4).unwrap();
    assert_eq!(deleted.kind, WatchEventKind::NodeDeleted);
    assert!(WatchEvent::from_tree_kv_event(&TreeKvEvent::NodeExpired(path("/n")), 3).is_none());
}

#[test]
fn broadcast_reaches_subscribers() {
    let mut manager = WatchManager::new();
    let mut receiver = manager.subscribe();
    let event = WatchEvent::from_tree_kv_event(&TreeKvEvent::NodeUpdated(path("/w")), 8).unwrap();
    manager.broadcast_event(event);
    let got = receiver.try_recv().unwrap();
    assert_eq!(got.kind, WatchEventKind::NodeUpdated);
    assert_eq!(got.session_id, 8);
}

// ---- locks ----

fn lock_manager() -> LockManager {
    LockManager::new(Arc::new(tokio::sync::RwLock::new(TreeKv::new())), std::time::Instant::now())
}

#[test]
fn test_non_blocking_lock_acquire() {
    let mut manager = lock_manager();

    let result = manager.acquire("test-lock", 1, LockMode::NonBlocking);
    assert!(result.is_ok());

    let result = manager.acquire("test-lock", 2, LockMode::NonBlocking);
    assert!(result.is_err());
}

#[test]
fn test_lock_release() {
    let mut manager = lock_manager();

    assert!(matches!(manager.acquire("test-lock", 1, LockMode::NonBlocking), Ok(LockGrant::Acquired(_, _))));

    let result = manager.release("test-lock", 1);
    assert!(result.is_ok());

    let result = manager.acquire("test-lock", 2, LockMode::NonBlocking);
    assert!(result.is_ok());
}

#[test]
fn test_lock_state_query() {
    let mut manager = lock_manager();

    let state = manager.get_state("test-lock");
    assert!(state.is_err());

    manager.acquire("test-lock", 1, LockMode::NonBlocking).unwrap();

    let state = manager.get_state("test-lock").unwrap();
    assert!(state.is_held);
    assert_eq!(state.holder_session_id, Some(1));
    assert_eq!(state.queue_length, 1);
}

#[test]
fn test_session_cleanup_releases_lock() {
    let mut manager = lock_manager();

    manager.acquire("test-lock", 1, LockMode::NonBlocking).unwrap();

    let released = manager.cleanup_session(1);
    assert!(released.contains(&"test-lock".to_string()));

    let result = manager.acquire("test-lock", 2, LockMode::NonBlocking);
    assert!(result.is_ok());
}

#[test]
fn lock_queue_hand_over_and_errors() {
    let mut manager = lock_manager();
    match manager.acquire("jobs", 7, LockMode::Blocking).unwrap() {
        LockGrant::Acquired(p, s1) => {
            assert_eq!(p.as_str(), "/locks/jobs");
            assert_eq!(s1, 1);
        }
        LockGrant::Queued(..) => panic!("a free lock is acquired"),
    }
    match manager.acquire("jobs", 5, LockMode::Blocking).unwrap() {
        LockGrant::Queued(p, s2) => {
            assert_eq!(p.as_str(), "/locks/jobs");
            assert_eq!(s2, 2);
        }
        LockGrant::Acquired(..) => panic!("a held lock only queues"),
    }
    assert!(matches!(manager.acquire("jobs", 9, LockMode::NonBlocking), Err(ErrorCode::LockBusy)));
    assert_eq!(manager.release("jobs", 5), Err(ErrorCode::LockNotHeld));
    assert_eq!(manager.release("nope", 5), Err(ErrorCode::LockNotFound));
    assert_eq!(manager.release("jobs", 7), Ok(()));
    let state = manager.get_state("jobs").unwrap();
    assert_eq!(state.holder_session_id, Some(5));
    assert_eq!(state.queue_length, 1);
    assert!(matches!(manager.acquire("../x", 1, LockMode::NonBlocking), Err(ErrorCode::InvalidPath)));
}

#[test]
fn lock_timeout_polling() {
    let mut manager = lock_manager();
    manager.acquire("t", 1, LockMode::NonBlocking).unwrap();
    let seq = match manager.acquire("t", 2, LockMode::Timeout(std::time::Duration::from_millis(100))).unwrap() {
        LockGrant::Queued(_, s) => s,
        LockGrant::Acquired(..) => panic!("a held lock only queues"),
    };
    assert!(manager.poll_timeout("t", 2, seq, false).is_none());
    assert!(matches!(manager.poll_timeout("t", 2, seq, true), Some(Err(ErrorCode::LockTimeout))));
    assert_eq!(manager.get_state("t").unwrap().queue_length, 1);
    let seq3 = match manager.acquire("t", 3, LockMode::Timeout(std::time::Duration::from_millis(100))).unwrap() {
        LockGrant::Queued(_, s) => s,
        LockGrant::Acquired(..) => panic!("a held lock only queues"),
    };
    manager.release("t", 1).unwrap();
    manager.on_lock_released("t");
    match manager.poll_timeout("t", 3, seq3, false) {
        Some(Ok((p, s))) => {
            assert_eq!(p.as_str(), "/locks/t");
            assert_eq!(s, seq3);
        }
        _ => panic!("expected the lock"),
    }
}

#[test]
fn lock_passes_to_the_earliest_waiter() {
    let mut manager = lock_manager();
    assert!(matches!(manager.acquire("L", 5, LockMode::NonBlocking), Ok(LockGrant::Acquired(_, 1))));
    assert!(matches!(manager.acquire("L", 9, LockMode::Blocking), Ok(LockGrant::Queued(_, 2))));
    assert!(matches!(manager.acquire("L", 2, LockMode::Blocking), Ok(LockGrant::Queued(_, 3))));
    assert_eq!(manager.release("L", 5), Ok(()));
    let state = manager.get_state("L").unwrap();
    assert_eq!(state.holder_session_id, Some(9));
    assert_eq!(state.queue_length, 2);
    assert!(manager.poll_timeout("L", 2, 3, false).is_none());
    assert!(matches!(manager.poll_timeout("L", 9, 2, false), Some(Ok((_, 2)))));
    assert!(manager.can_queue("L"));
    assert!(manager.can_queue("new"));
}

#[test]
fn cleanup_lists_locks_in_name_order() {
    let mut manager = lock_manager();
    manager.acquire("zeta", 4, LockMode::Blocking).unwrap();
    manager.acquire("alpha", 4, LockMode::Blocking).unwrap();
    manager.acquire("mid", 2, LockMode::Blocking).unwrap();
    assert_eq!(manager.cleanup_session(4), vec!["alpha".to_string(), "zeta".to_string()]);
    assert!(!manager.get_state("alpha").unwrap().is_held);
}

// ---- registry ----

fn make_instance(service: &str, id: &str) -> ServiceInstance {
    ServiceInstance {
        instance_id: id.to_string(),
        service_name: service.to_string(),
        host: "127.0.0.1".to_string(),
        port: 8080,
        health: HealthStatus::Healthy,
        metadata: HashMap::new(),
    }
}

#[test]
fn test_register_and_list() {
    let mut registry = ServiceRegistry::new();
    registry.register(make_instance("api-gateway", "i1")).unwrap();
    registry.register(make_instance("api-gateway", "i2")).unwrap();

    let result = registry.list("api-gateway").unwrap();
    assert_eq!(result.instances.len(), 2);
}

#[test]
fn test_register_returns_valid_path() {
    let mut registry = ServiceRegistry::new();
    let path = registry.register(make_instance("auth", "a1")).unwrap();
    assert_eq!(path.as_str(), "/services/auth/a1");
}

#[test]
fn test_unregister() {
    let mut registry = ServiceRegistry::new();
    registry.register(make_instance("cache", "c1")).unwrap();
    registry.register(make_instance("cache", "c2")).unwrap();

    registry.unregister("cache", "c1").unwrap();

    let result = registry.list("cache").unwrap();
    assert_eq!(result.instances.len(), 1);
}

#[test]
fn test_unregister_nonexistent_returns_error() {
    let mut registry = ServiceRegistry::new();
    let result = registry.unregister("unknown", "x");
    assert!(result.is_err());
}

#[test]
fn test_list_services() {
    let mut registry = ServiceRegistry::new();
    registry.register(make_instance("svc-a", "x")).unwrap();
    registry.register(make_instance("svc-b", "y")).unwrap();

    let names = registry.list_services();
    assert!(names.contains(&"svc-a".to_string()));
    assert!(names.contains(&"svc-b".to_string()));
}

#[test]
fn test_update_health() {
    let mut registry = ServiceRegistry::new();
    registry.register(make_instance("db", "d1")).unwrap();

    registry.update_health("db", "d1", HealthStatus::Unhealthy).unwrap();

    let inst = registry.get("db", "d1").unwrap();
    assert_eq!(inst.health, HealthStatus::Unhealthy);
}

#[test]
fn test_update_health_nonexistent() {
    let mut registry = ServiceRegistry::new();
    let result = registry.update_health("foo", "bar", HealthStatus::Healthy);
    assert!(result.is_err());
}

#[test]
fn registry_drops_empty_services_and_refuses_bad_paths() {
    let mut registry = ServiceRegistry::default();
    registry.register(make_instance("solo", "only")).unwrap();
    assert_eq!(registry.instance_count("solo"), 1);
    assert_eq!(registry.unregister("solo", "other"), Err(ErrorCode::ServiceNotFound));
    registry.unregister("solo", "only").unwrap();
    assert_eq!(registry.list_services().len(), 0);
    assert_eq!(registry.instance_count("solo"), 0);
    assert!(matches!(registry.register(make_instance("..", "x")), Err(ErrorCode::InvalidPath)));
    let mut replaced = make_instance("svc", "i");
    registry.register(replaced.clone()).unwrap();
    replaced.port = 9;
    registry.register(replaced).unwrap();
    assert_eq!(registry.get("svc", "i").unwrap().port, 9);
    assert_eq!(registry.instance_count("svc"), 1);
    registry.clear();
    assert!(registry.get("svc", "i").is_none());
}

// ---- sessions ----

#[test]
fn test_create_session() {
    let mut manager = SessionManager::new(5000);
    let id = manager.create_session(0);
    assert_eq!(id, 1);
    assert!(manager.is_alive(id, 0));

    let id2 = manager.create_session(0);
    assert_eq!(id2, 2);
}

#[test]
fn test_heartbeat_renews_lease() {
    let mut manager = SessionManager::new(100);
    let id = manager.create_session(0);

    assert!(manager.heartbeat(id, 10).is_ok());
}

#[test]
fn test_session_expires_without_heartbeat() {
    let mut manager = SessionManager::new(50);
    let id = manager.create_session(0);

    assert!(!manager.is_alive(id, 80));
}

#[test]
fn test_close_session_returns_ephemerals() {
    let mut manager = SessionManager::new(5000);
    let id = manager.create_session(0);

    manager.register_ephemeral_node(id, "/ephemeral/node1");
    manager.register_ephemeral_node(id, "/ephemeral/node2");

    let nodes = manager.close_session(id).unwrap();
    assert_eq!(nodes.len(), 2);
    assert!(!manager.is_alive(id, 0));
}

#[test]
fn test_collect_expired_sessions() {
    let mut manager = SessionManager::new(30);
    let id = manager.create_session(0);

    let expired = manager.collect_expired_sessions(50);
    assert!(expired.contains_key(&id));
    assert_eq!(expired[&id].len(), 0);
}

#[test]
fn test_double_close_session() {
    let mut manager = SessionManager::new(5000);
    let id = manager.create_session(0);

    manager.close_session(id).unwrap();
    let result = manager.close_session(id);
    assert!(result.is_err());
}

#[test]
fn session_lease_boundaries() {
    let mut manager = SessionManager::new(100);
    let id = manager.create_session(1000);
    assert!(manager.is_alive(id, 1100));
    assert!(!manager.is_alive(id, 1101));
    assert!(manager.heartbeat(id, 1050).is_ok());
    assert!(manager.is_alive(id, 1150));
    assert_eq!(manager.heartbeat(id, 1151), Err(ErrorCode::SessionExpired));
    assert_eq!(manager.heartbeat(id, 1000), Err(ErrorCode::SessionExpired));
    assert_eq!(manager.heartbeat(42, 0), Err(ErrorCode::SessionNotFound));
    assert_eq!(manager.session_summary(), vec![(id, SessionState::Expired)]);
    assert_eq!(manager.close_session(42), Err(ErrorCode::SessionNotFound));
}

#[test]
fn session_counts_and_purge() {
    let mut manager = SessionManager::new(10);
    let a = manager.create_session(0);
    let b = manager.create_session(5);
    manager.register_ephemeral_node(b, "/e");
    assert_eq!(manager.get_session_ephemerals(b), vec!["/e".to_string()]);
    assert_eq!(manager.get_session_ephemerals(99), Vec::<String>::new());
    assert_eq!(manager.active_session_count(12), 1);
    let expired = manager.collect_expired_sessions(12);
    assert_eq!(expired.len(), 1);
    assert!(expired.contains_key(&a));
    assert_eq!(manager.close_session(b).unwrap(), vec!["/e".to_string()]);
    manager.purge_closed_sessions();
    assert_eq!(manager.session_summary(), vec![(a, SessionState::Expired)]);
}

// ---- back-pressure ----

fn event(p: &str) -> WatchEvent {
    WatchEvent::from_tree_kv_event(&TreeKvEvent::NodeCreated(path(p)), 1).unwrap()
}

#[test]
fn test_register_and_unregister_session() {
    let mut dm = DeliveryManager::new(10);
    let rx = dm.register_session(1);
    assert!(rx.is_some());
    assert!(dm.register_session(1).is_none());

    dm.unregister_session(1);
    assert!(dm.stats(1).is_none());
}

#[test]
fn test_drop_newest_when_full() {
    let mut dm = DeliveryManager::new(3);
    let _rx = dm.register_session(1);

    let event0 = event("/test");

    for i in 0..3 {
        let ev = event(&format!("/node{}", i));
        assert!(dm.deliver(1, ev));
    }

    assert!(!dm.deliver(1, event0));
    assert!(dm.stats(1).unwrap().dropped_total >= 1);
}

#[test]
fn test_nonexistent_session_returns_false() {
    let mut dm = DeliveryManager::new(10);
    assert!(!dm.deliver(999, event("/test")));
}

#[test]
fn test_batch_deliver() {
    let mut dm = DeliveryManager::new(10);
    let _rx1 = dm.register_session(1);
    let _rx2 = dm.register_session(2);

    let results = dm.deliver_batch(&[1, 2], event("/event"));
    assert!(results[&1]);
    assert!(results[&2]);
}

#[test]
fn test_total_dropped() {
    let mut dm = DeliveryManager::new(2);
    let _rx = dm.register_session(1);

    let ev = event("/x");

    for _ in 0..5 {
        dm.deliver(1, ev.clone());
    }

    assert!(dm.total_dropped() >= 3);
}

#[test]
fn delivery_outcomes_and_stats() {
    let mut dm = DeliveryManager::new(4);
    let rx = dm.register_session(7);
    assert_eq!(dm.active_session_count(), 1);
    assert!(dm.record_outcome(7, SendOutcome::Sent));
    assert!(!dm.record_outcome(7, SendOutcome::Full));
    assert!(!dm.record_outcome(7, SendOutcome::Closed));
    assert_eq!(dm.stats(7).unwrap().dropped_total, 1);
    assert_eq!(dm.stats(7).unwrap().capacity, 4);
    drop(rx);
    assert!(!dm.deliver(7, event("/gone")));
    assert_eq!(dm.total_dropped(), 1);
    let all = dm.all_stats();
    assert_eq!(all.len(), 1);
    assert_eq!(all[&7].current_depth, 0);
    let results = dm.deliver_batch(&[3], event("/none"));
    assert!(!results[&3]);
}

// ---- request processing ----

fn header(kind: RequestKind, request_id: u32) -> FrameHeader {
    FrameHeader::new(kind, request_id, 0, 0)
}

#[test]
fn server_processes_tree_requests() {
    let mut server = RookeeperServer::new(RuntimeMode::Memory, "0.1.0".to_string());
    let create = RequestBody::Create(Ok(CreateRequest { path: path("/cfg"), value: b"v1".to_vec(), ttl_seconds: None }));
    let resp = server.process_request(&header(RequestKind::Create, 1), create, 10, 0).unwrap();
    assert_eq!(resp.request_id, 1);
    assert_eq!(resp.status, ErrorCode::Success);

    let again = RequestBody::Create(Ok(CreateRequest { path: path("/cfg"), value: b"v2".to_vec(), ttl_seconds: None }));
    let resp = server.process_request(&header(RequestKind::Create, 2), again, 10, 0).unwrap();
    assert_eq!(resp.status, ErrorCode::PathAlreadyExists);

    let get = RequestBody::Get(Ok(GetRequest { path: path("/cfg") }));
    let resp = server.process_request(&header(RequestKind::Get, 3), get, 10, 0).unwrap();
    assert_eq!(resp.status, ErrorCode::Success);
    match resp.body {
        ResponseBody::Encoded(bytes) => {
            assert_eq!(&bytes[0..8], &2u64.to_le_bytes());
            assert_eq!(&bytes[8..], b"v1");
        }
        _ => panic!("expected encoded bytes"),
    }

    let set = RequestBody::SetValue(Ok(SetRequest { path: path("/cfg"), value: b"v3".to_vec(), expected_version: Some(7), ttl_seconds: None }));
    let resp = server.process_request(&header(RequestKind::SetValue, 4), set, 10, 0).unwrap();
    assert_eq!(resp.status, ErrorCode::VersionConflict);

    let list = RequestBody::List(Ok(ListRequest { path: path("/") }));
    let resp = server.process_request(&header(RequestKind::List, 5), list, 10, 0).unwrap();
    assert_eq!(resp.status, ErrorCode::PathNotFound);
    let list = RequestBody::List(Ok(ListRequest { path: path("/cfg") }));
    let resp = server.process_request(&header(RequestKind::List, 5), list, 10, 0).unwrap();
    assert_eq!(resp.status, ErrorCode::Success);
    match resp.body {
        ResponseBody::Children(children) => assert!(children.is_empty()),
        _ => panic!("expected children"),
    }

    let bad = RequestBody::Delete(Err("unexpected end".to_string()));
    let resp = server.process_request(&header(RequestKind::Delete, 6), bad, 10, 0).unwrap();
    assert_eq!(resp.status, ErrorCode::Internal);
    match resp.body {
        ResponseBody::Encoded(bytes) => assert_eq!(bytes, b"Parse error: unexpected end".to_vec()),
        _ => panic!("expected text"),
    }

    let resp = server.process_request(&header(RequestKind::AcquireLock, 7), RequestBody::Unsupported, 10, 0).unwrap();
    assert_eq!(resp.request_id, 7);
    assert_eq!(resp.status, ErrorCode::Internal);
}

#[test]
fn server_notifies_watchers() {
    let mut server = RookeeperServer::new(RuntimeMode::Memory, "0.1.0".to_string());
    let mut events = server.watch_manager.subscribe();
    let watch = RequestBody::Watch(Ok(WatchRequest { path: path("/app"), recursive: true }));
    let resp = server.process_request(&header(RequestKind::Watch, 1), watch, 44, 0).unwrap();
    match resp.body {
        ResponseBody::Encoded(bytes) => assert_eq!(bytes, 0u64.to_le_bytes().to_vec()),
        _ => panic!("expected a subscription id"),
    }
    let create = RequestBody::Create(Ok(CreateRequest { path: path("/app/x"), value: vec![], ttl_seconds: None }));
    server.process_request(&header(RequestKind::Create, 2), create, 1, 0).unwrap();
    let got = events.try_recv().unwrap();
    assert_eq!(got.kind, WatchEventKind::NodeCreated);
    assert_eq!(got.session_id, 44);
    assert_eq!(got.path.as_str(), "/app/x");
}

#[test]
fn server_health_and_metrics() {
    let mut server = RookeeperServer::new(RuntimeMode::Persistent, "9.9".to_string());
    let create = RequestBody::Create(Ok(CreateRequest { path: path("/m"), value: vec![], ttl_seconds: None }));
    server.process_request(&header(RequestKind::Create, 1), create, 1, 0).unwrap();
    let resp = server.process_request(&header(RequestKind::HealthCheck, 8), RequestBody::HealthCheck, 1, 33).unwrap();
    assert_eq!(resp.request_id, 8);
    match resp.body {
        ResponseBody::Health(h) => {
            assert!(h.healthy);
            assert_eq!(h.mode, "memory");
            assert_eq!(h.version, "9.9");
            assert_eq!(h.uptime_seconds, 33);
            assert_eq!(h.node_count, 1);
        }
        _ => panic!("expected a health report"),
    }
    let resp = server.process_request(&header(RequestKind::MetricsRequest, 9), RequestBody::Metrics, 1, 0).unwrap();
    assert_eq!(resp.request_id, 9);
    match resp.body {
        ResponseBody::Metrics(m) => assert_eq!(
            m.prometheus_text,
            "# HELP rookeeper_node_count Number of nodes in the tree\n# TYPE rookeeper_node_count gauge\nrookeeper_node_count 1\n# HELP rookeeper_command_id Current command ID\n# TYPE rookeeper_command_id counter\nrookeeper_command_id 1\n"
        ),
        _ => panic!("expected metrics"),
    }
}

#[test]
fn server_frames_responses() {
    let frame = ResponseFrame { request_id: 12, status: ErrorCode::Success, payload: b"xy".to_vec() };
    let bytes = RookeeperServer::serialize_response(&frame).unwrap();
    assert_eq!(bytes.len(), FRAME_HEADER_LEN + 8 + 2);
    let h = parse_header(&bytes[..FRAME_HEADER_LEN]);
    assert_eq!(h.request_id, 12);
    assert_eq!(h.request_kind, 1);
    assert_eq!(h.payload_len, 10);
    assert_eq!(&bytes[FRAME_HEADER_LEN..FRAME_HEADER_LEN + 8], &2u64.to_le_bytes());
    let mut buf = [0u8; FRAME_HEADER_LEN];
    buf.copy_from_slice(&bytes[..FRAME_HEADER_LEN]);
    assert_eq!(RookeeperServer::parse_header(&buf).unwrap(), h);
    assert_eq!(h.flags, 0);
}

#[test]
fn response_frames_carry_status_for_clients() {
    let frame = ResponseFrame { request_id: 3, status: ErrorCode::PathNotFound, payload: Vec::new() };
    let bytes = RookeeperServer::serialize_response(&frame).unwrap();
    assert_eq!(&bytes[4..6], &ErrorCode::PathNotFound.as_u16().to_le_bytes());
    assert_eq!(&bytes[FRAME_HEADER_LEN..], &0u64.to_le_bytes());
    let mut buf = [0u8; FRAME_HEADER_LEN];
    buf.copy_from_slice(&bytes[..FRAME_HEADER_LEN]);
    match read_response_header(&buf, 3) {
        Ok((status, len)) => {
            assert_eq!(status, ErrorCode::PathNotFound);
            assert_eq!(len, 8);
        }
        Err(_) => panic!("the response answers request 3"),
    }
}

#[test]
fn requests_are_allowed_while_counters_have_room() {
    let mut server = RookeeperServer::new(RuntimeMode::Memory, "0.1.0".to_string());
    server.watch_manager.register_watch(1, path("/é"), true);
    let create_x = RequestBody::Create(Ok(CreateRequest { path: path("/x"), value: vec![1], ttl_seconds: None }));
    assert!(server.request_is_allowed(&create_x));
    let resp = server.process_request(&header(RequestKind::Create, 1), create_x, 1, 0).unwrap();
    assert_eq!(resp.status, ErrorCode::Success);
    let set_x = RequestBody::SetValue(Ok(SetRequest { path: path("/x"), value: vec![2], expected_version: None, ttl_seconds: None }));
    assert!(server.request_is_allowed(&set_x));
    let delete_x = RequestBody::Delete(Ok(DeleteRequest { path: path("/x") }));
    assert!(server.request_is_allowed(&delete_x));
    let get = RequestBody::Get(Ok(GetRequest { path: path("/x") }));
    assert!(server.request_is_allowed(&get));
}

#[test]
fn tree_node_and_permission_queries() {
    let mut tree = TreeKv::new();
    tree.create(&path("/n"), vec![5], "u").unwrap();
    assert_eq!(tree.node(&path("/n")).unwrap().value, vec![5]);
    assert_eq!(tree.node(&path("/n")).unwrap().metadata.version, 1);
    assert!(tree.node(&path("/missing")).is_none());
    assert!(tree.permits(&path("/missing"), Permission::Delete, "anyone"));
    assert!(tree.permits(&path("/n"), Permission::Write, "u"));
}

#[test]
fn delivered_events_reach_their_queue_unchanged() {
    let mut dm = DeliveryManager::new(4);
    let mut rx = dm.register_session(7).unwrap();
    assert!(dm.deliver(7, event("/q/1")));
    let got = rx.try_recv().unwrap();
    assert_eq!(got.path.as_str(), "/q/1");
    let results = dm.deliver_batch(&[7, 8], event("/q/2"));
    assert_eq!(results.get(&7), Some(&true));
    assert_eq!(results.get(&8), Some(&false));
    assert_eq!(rx.try_recv().unwrap().path.as_str(), "/q/2");
    drop(rx);
    assert!(!dm.deliver(7, event("/q/3")));
    assert_eq!(dm.stats(7).unwrap().dropped_total, 0);
}
