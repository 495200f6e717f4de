use rookeeper::acl::{Acl, AclChecker, AclEntry, Permission};
use rookeeper::client::{check_status, frame_request, read_response_header, ClientBootstrap, ClientOptions, SdkError};
use rookeeper::config::{RuntimeMode, ServiceConfig, TransportMode};
use rookeeper::error::{ErrorCode, RookeeperError};
use rookeeper::model::NodePath;
use rookeeper::platform::{current_os, default_endpoint, default_ipc_transport, system_service_name, IpcTransport, OperatingSystem};
use rookeeper::wire::{encode_header, parse_header, EventKind, FrameHeader, RequestKind, FRAME_HEADER_LEN, PROTOCOL_VERSION_V1};

#[test]
fn creates_headers_with_version() {
    let client = ClientBootstrap::from_config(&ServiceConfig::default(), OperatingSystem::Linux);
    let header = client.build_header(RequestKind::Get, 7, 16);

    assert_eq!(header.request_id, 7);
    assert_eq!(header.payload_len, 16);
}

#[test]
fn exposes_service_name() {
    assert_eq!(system_service_name(), "rookeeper");
    assert!(default_endpoint("rookeeper", current_os("linux")).contains("rookeeper"));
}

#[test]
fn wildcard_subject_matches() {
    let acl = Acl {
        entries: vec![AclEntry {
            subject: "*".to_string(),
            permissions: vec![Permission::Read],
        }],
    };

    assert!(acl.allows("operator", Permission::Read));
    assert!(!acl.allows("operator", Permission::Write));
}

#[test]
fn normalizes_backslashes_and_duplicate_separators() {
    let path = NodePath::parse("\\plant\\\\line1/robot3//config").unwrap();
    assert_eq!(path.as_str(), "/plant/line1/robot3/config");
}

#[test]
fn rejects_parent_segments() {
    assert!(NodePath::parse("/plant/../config").is_err());
}

#[test]
fn normalizing_twice_changes_nothing() {
    let once = NodePath::parse("a\\b//./c/").unwrap();
    assert_eq!(once.as_str(), "/a/b/c");
    let twice = NodePath::parse(once.as_str()).unwrap();
    assert_eq!(twice.as_str(), once.as_str());
}

#[test]
fn empty_and_dot_paths_normalize_to_root() {
    assert_eq!(NodePath::parse("").unwrap().as_str(), "/");
    assert_eq!(NodePath::parse("/././/").unwrap().as_str(), "/");
}

#[test]
fn acl_without_entries_allows_everything() {
    let acl = Acl::empty();
    assert!(acl.allows("anyone", Permission::Admin));
}

#[test]
fn acl_named_subject_only() {
    let acl = Acl {
        entries: vec![AclEntry { subject: "alice".to_string(), permissions: vec![Permission::Write] }],
    };
    assert!(acl.allows("alice", Permission::Write));
    assert!(!acl.allows("bob", Permission::Write));
}

#[test]
fn acl_checker_falls_back_to_default_permissions() {
    let acl = Acl {
        entries: vec![AclEntry { subject: "alice".to_string(), permissions: vec![Permission::Write] }],
    };
    let checker = AclChecker::new();
    assert_eq!(checker.check(&acl, "bob", Permission::Read), Err(ErrorCode::PermissionDenied));
    let checker = AclChecker::new().with_default_permissions(vec![Permission::Read]);
    assert_eq!(checker.check(&acl, "bob", Permission::Read), Ok(()));
    assert_eq!(checker.check(&acl, "bob", Permission::Delete), Err(ErrorCode::PermissionDenied));
}

#[test]
fn error_codes_round_trip_on_the_wire() {
    let codes = [
        ErrorCode::Success,
        ErrorCode::PathNotFound,
        ErrorCode::VersionConflict,
        ErrorCode::LockTimeout,
        ErrorCode::ServiceNotFound,
        ErrorCode::Internal,
    ];
    for code in codes {
        assert_eq!(ErrorCode::from_u16(code.as_u16()), code);
    }
    assert_eq!(ErrorCode::Internal.as_u16(), 255);
    assert_eq!(ErrorCode::SessionExpired.as_u16(), 6);
    assert_eq!(ErrorCode::from_u16(200), ErrorCode::Internal);
}

#[test]
fn rookeeper_error_keeps_code_and_message() {
    let err = RookeeperError::new(ErrorCode::LockBusy, "busy".to_string());
    assert_eq!(err.code, ErrorCode::LockBusy);
    assert_eq!(err.message, "busy");
}

#[test]
fn request_and_event_kinds_round_trip() {
    assert_eq!(RequestKind::Get.to_u16(), 1);
    assert_eq!(RequestKind::GetLockState.to_u16(), 20);
    assert_eq!(RequestKind::from_u16(3), Some(RequestKind::SetValue));
    assert_eq!(RequestKind::from_u16(0), None);
    assert_eq!(RequestKind::from_u16(21), None);
    for v in 1u16..=20 {
        assert_eq!(RequestKind::from_u16(v).unwrap().to_u16(), v);
    }
    for v in 1u16..=4 {
        assert_eq!(EventKind::from_u16(v).unwrap().to_u16(), v);
    }
}

#[test]
fn frame_header_round_trips() {
    let header = FrameHeader::new(RequestKind::Watch, 0xdead_beef, 42, 1000);
    assert_eq!(header.version, PROTOCOL_VERSION_V1);
    assert_eq!(header.request_kind, 6);
    let bytes = encode_header(&header);
    assert_eq!(bytes.len(), FRAME_HEADER_LEN);
    assert_eq!(&bytes[0..2], &[1, 0]);
    assert_eq!(&bytes[8..12], &[0xef, 0xbe, 0xad, 0xde]);
    assert_eq!(parse_header(&bytes), header);
}

#[test]
fn platform_defaults_per_system() {
    assert_eq!(current_os("windows"), OperatingSystem::Windows);
    assert_eq!(current_os("linux"), OperatingSystem::Linux);
    assert_eq!(current_os("macos"), OperatingSystem::Other);
    assert_eq!(default_ipc_transport(OperatingSystem::Windows), IpcTransport::NamedPipe);
    assert_eq!(default_endpoint("svc", OperatingSystem::Linux), "unix:///tmp/svc.sock");
    assert_eq!(default_endpoint("svc", OperatingSystem::Windows), "pipe://./pipe/svc");
    assert_eq!(default_endpoint("svc", OperatingSystem::Other), "tcp://127.0.0.1:9641/svc");
}

#[test]
fn client_options_follow_transport_mode() {
    let defaults = ClientOptions::default_for(OperatingSystem::Other);
    assert_eq!(defaults.endpoint, "tcp://127.0.0.1:9641/rookeeper");
    assert_eq!(defaults.timeout_ms, 3_000);
    let mut config = ServiceConfig::default();
    config.server.primary_transport = TransportMode::NamedPipe;
    config.server.session_timeout_ms = 1234;
    let bootstrap = ClientBootstrap::from_config(&config, OperatingSystem::Linux);
    assert_eq!(bootstrap.options.endpoint, "pipe://./pipe/rookeeper");
    assert_eq!(bootstrap.options.timeout_ms, 1234);
    assert_eq!(bootstrap.options.auth_token, None);
}

#[test]
fn config_defaults() {
    let config = ServiceConfig::default();
    assert_eq!(config.server.node_name, "local-node");
    assert_eq!(config.server.primary_transport, TransportMode::Auto);
    assert_eq!(config.storage.root_dir, "./data");
    assert_eq!(config.storage.max_wal_segment_bytes, 64 * 1024 * 1024);
    assert_eq!(config.observability.metrics_bind, "127.0.0.1:9642");
    assert_eq!(RuntimeMode::default(), RuntimeMode::Memory);
}

#[test]
fn client_frames_requests() {
    let frame = frame_request(RequestKind::Delete, 9, 77, b"abc");
    assert_eq!(frame.len(), FRAME_HEADER_LEN + 3);
    let header = parse_header(&frame[..FRAME_HEADER_LEN]);
    assert_eq!(header.request_kind, 4);
    assert_eq!(header.request_id, 9);
    assert_eq!(header.session_id, 77);
    assert_eq!(header.payload_len, 3);
    assert_eq!(&frame[FRAME_HEADER_LEN..], b"abc");
}

#[test]
fn client_reads_response_headers() {
    let mut header = FrameHeader::new(RequestKind::Get, 5, 0, 12);
    header.flags = 3;
    let bytes = encode_header(&header);
    let mut buf = [0u8; FRAME_HEADER_LEN];
    buf.copy_from_slice(&bytes);
    match read_response_header(&buf, 5) {
        Ok((status, len)) => {
            assert_eq!(status, ErrorCode::VersionConflict);
            assert_eq!(len, 12);
        }
        Err(_) => panic!("expected a header"),
    }
    match read_response_header(&buf, 6) {
        Err(SdkError::Protocol(message)) => assert_eq!(message, "Request ID mismatch"),
        _ => panic!("expected a mismatch"),
    }
    assert!(check_status(ErrorCode::Success).is_ok());
    assert!(matches!(check_status(ErrorCode::LockBusy), Err(SdkError::ServerError(ErrorCode::LockBusy))));
}
