//! Binary wire protocol: request and event kinds and the fixed 24-byte
//! frame header.
use vstd::prelude::*;
use vstd::bytes::*;

use crate::codec::{get_u16, get_u32, get_u64, put_u16, put_u32, put_u64, lemma_le_round_trips};
use crate::error::ErrorCode;
use crate::model::SessionId;

verus! {

/// The protocol version this implementation speaks.
pub const PROTOCOL_VERSION_V1: u16 = 1;

/// Length in bytes of every frame header.
pub const FRAME_HEADER_LEN: usize = 24;

/// Operations a client can request.
#[derive(Debug, Clone, Copy, PartialEq, Eq, Structural)]
pub enum RequestKind {
    Get,
    Create,
    SetValue,
    Delete,
    List,
    Watch,
    AcquireLock,
    ReleaseLock,
    RegisterService,
    GetStatus,
    HealthCheck,
    MetricsRequest,
    CancelWatch,
    AcquireLockV2,
    ReleaseLockV2,
    RegisterServiceV2,
    UnregisterService,
    ListServices,
    SessionHeartbeat,
    GetLockState,
}

/// The wire number of each RequestKind.
pub open spec fn request_kind_value(k: RequestKind) -> u16 {
    match k {
        RequestKind::Get => 1,
        RequestKind::Create => 2,
        RequestKind::SetValue => 3,
        RequestKind::Delete => 4,
        RequestKind::List => 5,
        RequestKind::Watch => 6,
        RequestKind::AcquireLock => 7,
        RequestKind::ReleaseLock => 8,
        RequestKind::RegisterService => 9,
        RequestKind::GetStatus => 10,
        RequestKind::HealthCheck => 11,
        RequestKind::MetricsRequest => 12,
        RequestKind::CancelWatch => 13,
        RequestKind::AcquireLockV2 => 14,
        RequestKind::ReleaseLockV2 => 15,
        RequestKind::RegisterServiceV2 => 16,
        RequestKind::UnregisterService => 17,
        RequestKind::ListServices => 18,
        RequestKind::SessionHeartbeat => 19,
        RequestKind::GetLockState => 20,
    }
}

/// The RequestKind that a wire number names, if any.
pub open spec fn request_kind_of(value: u16) -> Option<RequestKind> {
    if value == 1 { Some(RequestKind::Get) }
    else if value == 2 { Some(RequestKind::Create) }
    else if value == 3 { Some(RequestKind::SetValue) }
    else if value == 4 { Some(RequestKind::Delete) }
    else if value == 5 { Some(RequestKind::List) }
    else if value == 6 { Some(RequestKind::Watch) }
    else if value == 7 { Some(RequestKind::AcquireLock) }
    else if value == 8 { Some(RequestKind::ReleaseLock) }
    else if value == 9 { Some(RequestKind::RegisterService) }
    else if value == 10 { Some(RequestKind::GetStatus) }
    else if value == 11 { Some(RequestKind::HealthCheck) }
    else if value == 12 { Some(RequestKind::MetricsRequest) }
    else if value == 13 { Some(RequestKind::CancelWatch) }
    else if value == 14 { Some(RequestKind::AcquireLockV2) }
    else if value == 15 { Some(RequestKind::ReleaseLockV2) }
    else if value == 16 { Some(RequestKind::RegisterServiceV2) }
    else if value == 17 { Some(RequestKind::UnregisterService) }
    else if value == 18 { Some(RequestKind::ListServices) }
    else if value == 19 { Some(RequestKind::SessionHeartbeat) }
    else if value == 20 { Some(RequestKind::GetLockState) }
    else { None }
}

impl RequestKind {
    /// The wire number.
    pub fn to_u16(self) -> (r: u16)
        ensures
            r == request_kind_value(self),
    {
        match self {
            RequestKind::Get => 1,
            RequestKind::Create => 2,
            RequestKind::SetValue => 3,
            RequestKind::Delete => 4,
            RequestKind::List => 5,
            RequestKind::Watch => 6,
            RequestKind::AcquireLock => 7,
            RequestKind::ReleaseLock => 8,
            RequestKind::RegisterService => 9,
            RequestKind::GetStatus => 10,
            RequestKind::HealthCheck => 11,
            RequestKind::MetricsRequest => 12,
            RequestKind::CancelWatch => 13,
            RequestKind::AcquireLockV2 => 14,
            RequestKind::ReleaseLockV2 => 15,
            RequestKind::RegisterServiceV2 => 16,
            RequestKind::UnregisterService => 17,
            RequestKind::ListServices => 18,
            RequestKind::SessionHeartbeat => 19,
            RequestKind::GetLockState => 20,
        }
    }

    /// The kind a wire number names, if any.
    pub fn from_u16(value: u16) -> (r: Option<RequestKind>)
        ensures
            r == request_kind_of(value),
    {
        match value {
            1 => Some(RequestKind::Get),
            2 => Some(RequestKind::Create),
            3 => Some(RequestKind::SetValue),
            4 => Some(RequestKind::Delete),
            5 => Some(RequestKind::List),
            6 => Some(RequestKind::Watch),
            7 => Some(RequestKind::AcquireLock),
            8 => Some(RequestKind::ReleaseLock),
            9 => Some(RequestKind::RegisterService),
            10 => Some(RequestKind::GetStatus),
            11 => Some(RequestKind::HealthCheck),
            12 => Some(RequestKind::MetricsRequest),
            13 => Some(RequestKind::CancelWatch),
            14 => Some(RequestKind::AcquireLockV2),
            15 => Some(RequestKind::ReleaseLockV2),
            16 => Some(RequestKind::RegisterServiceV2),
            17 => Some(RequestKind::UnregisterService),
            18 => Some(RequestKind::ListServices),
            19 => Some(RequestKind::SessionHeartbeat),
            20 => Some(RequestKind::GetLockState),
            _ => None,
        }
    }
}

/// Decoding the wire number of a kind gives the kind back.
pub proof fn lemma_request_kind_round_trip(k: RequestKind)
    ensures
        request_kind_of(request_kind_value(k)) == Some(k),
{
}

/// Notifications the server pushes.
#[derive(Debug, Clone, Copy, PartialEq, Eq, Structural)]
pub enum EventKind {
    NodeCreated,
    NodeUpdated,
    NodeDeleted,
    ChildrenChanged,
    LockAcquired,
    LockReleased,
    ServiceRegistered,
    ServiceUnregistered,
    WatchExpired,
    LockAcquiredV2,
    LockReleasedV2,
    LockRevoked,
    ServiceRegisteredV2,
    ServiceUnregisteredV2,
    ServiceOffline,
}

/// The wire number of each EventKind.
pub open spec fn event_kind_value(k: EventKind) -> u16 {
    match k {
        EventKind::NodeCreated => 1,
        EventKind::NodeUpdated => 2,
        EventKind::NodeDeleted => 3,
        EventKind::ChildrenChanged => 4,
        EventKind::LockAcquired => 5,
        EventKind::LockReleased => 6,
        EventKind::ServiceRegistered => 7,
        EventKind::ServiceUnregistered => 8,
        EventKind::WatchExpired => 9,
        EventKind::LockAcquiredV2 => 10,
        EventKind::LockReleasedV2 => 11,
        EventKind::LockRevoked => 12,
        EventKind::ServiceRegisteredV2 => 13,
        EventKind::ServiceUnregisteredV2 => 14,
        EventKind::ServiceOffline => 15,
    }
}

/// The EventKind that a wire number names, if any.
pub open spec fn event_kind_of(value: u16) -> Option<EventKind> {
    if value == 1 { Some(EventKind::NodeCreated) }
    else if value == 2 { Some(EventKind::NodeUpdated) }
    else if value == 3 { Some(EventKind::NodeDeleted) }
    else if value == 4 { Some(EventKind::ChildrenChanged) }
    else if value == 5 { Some(EventKind::LockAcquired) }
    else if value == 6 { Some(EventKind::LockReleased) }
    else if value == 7 { Some(EventKind::ServiceRegistered) }
    else if value == 8 { Some(EventKind::ServiceUnregistered) }
    else if value == 9 { Some(EventKind::WatchExpired) }
    else if value == 10 { Some(EventKind::LockAcquiredV2) }
    else if value == 11 { Some(EventKind::LockReleasedV2) }
    else if value == 12 { Some(EventKind::LockRevoked) }
    else if value == 13 { Some(EventKind::ServiceRegisteredV2) }
    else if value == 14 { Some(EventKind::ServiceUnregisteredV2) }
    else if value == 15 { Some(EventKind::ServiceOffline) }
    else { None }
}

impl EventKind {
    /// The wire number.
    pub fn to_u16(self) -> (r: u16)
        ensures
            r == event_kind_value(self),
    {
        match self {
            EventKind::NodeCreated => 1,
            EventKind::NodeUpdated => 2,
            EventKind::NodeDeleted => 3,
            EventKind::ChildrenChanged => 4,
            EventKind::LockAcquired => 5,
            EventKind::LockReleased => 6,
            EventKind::ServiceRegistered => 7,
            EventKind::ServiceUnregistered => 8,
            EventKind::WatchExpired => 9,
            EventKind::LockAcquiredV2 => 10,
            EventKind::LockReleasedV2 => 11,
            EventKind::LockRevoked => 12,
            EventKind::ServiceRegisteredV2 => 13,
            EventKind::ServiceUnregisteredV2 => 14,
            EventKind::ServiceOffline => 15,
        }
    }

    /// The kind a wire number names, if any.
    pub fn from_u16(value: u16) -> (r: Option<EventKind>)
        ensures
            r == event_kind_of(value),
    {
        match value {
            1 => Some(EventKind::NodeCreated),
            2 => Some(EventKind::NodeUpdated),
            3 => Some(EventKind::NodeDeleted),
            4 => Some(EventKind::ChildrenChanged),
            5 => Some(EventKind::LockAcquired),
            6 => Some(EventKind::LockReleased),
            7 => Some(EventKind::ServiceRegistered),
            8 => Some(EventKind::ServiceUnregistered),
            9 => Some(EventKind::WatchExpired),
            10 => Some(EventKind::LockAcquiredV2),
            11 => Some(EventKind::LockReleasedV2),
            12 => Some(EventKind::LockRevoked),
            13 => Some(EventKind::ServiceRegisteredV2),
            14 => Some(EventKind::ServiceUnregisteredV2),
            15 => Some(EventKind::ServiceOffline),
            _ => None,
        }
    }
}

/// Decoding the wire number of a kind gives the kind back.
pub proof fn lemma_event_kind_round_trip(k: EventKind)
    ensures
        event_kind_of(event_kind_value(k)) == Some(k),
{
}

/// Health-check reply.
#[derive(Debug, Clone)]
pub struct HealthCheckResponse {
    pub healthy: bool,
    pub mode: String,
    pub version: String,
    pub uptime_seconds: u64,
    pub node_count: usize,
}

/// Metrics reply in Prometheus text format.
#[derive(Debug, Clone)]
pub struct MetricsResponse {
    pub prometheus_text: String,
}

/// Header of every request and response frame.
#[derive(Debug, Clone, Copy, PartialEq, Eq, Structural)]
pub struct FrameHeader {
    pub version: u16,
    pub request_kind: u16,
    pub flags: u16,
    pub reserved: u16,
    pub request_id: u32,
    pub session_id: SessionId,
    pub payload_len: u32,
}

impl FrameHeader {
    /// A version-1 header with zero flags and reserved field.
    pub fn new(kind: RequestKind, request_id: u32, session_id: SessionId, payload_len: u32) -> (r: FrameHeader)
        ensures
            r == (FrameHeader {
                version: PROTOCOL_VERSION_V1,
                request_kind: request_kind_value(kind),
                flags: 0,
                reserved: 0,
                request_id,
                session_id,
                payload_len,
            }),
    {
        FrameHeader {
            version: PROTOCOL_VERSION_V1,
            request_kind: kind.to_u16(),
            flags: 0,
            reserved: 0,
            request_id,
            session_id,
            payload_len,
        }
    }
}

/// The header's wire bytes: version, kind, flags, reserved (two bytes
/// each), request id (four), session id (eight), payload length (four),
/// all little-endian.
pub open spec fn header_bytes(h: FrameHeader) -> Seq<u8> {
    spec_u16_to_le_bytes(h.version) + spec_u16_to_le_bytes(h.request_kind)
        + spec_u16_to_le_bytes(h.flags) + spec_u16_to_le_bytes(h.reserved)
        + spec_u32_to_le_bytes(h.request_id) + spec_u64_to_le_bytes(h.session_id)
        + spec_u32_to_le_bytes(h.payload_len)
}

/// The header read back from its wire bytes.
pub open spec fn header_of_bytes(b: Seq<u8>) -> FrameHeader {
    FrameHeader {
        version: spec_u16_from_le_bytes(b.subrange(0, 2)),
        request_kind: spec_u16_from_le_bytes(b.subrange(2, 4)),
        flags: spec_u16_from_le_bytes(b.subrange(4, 6)),
        reserved: spec_u16_from_le_bytes(b.subrange(6, 8)),
        request_id: spec_u32_from_le_bytes(b.subrange(8, 12)),
        session_id: spec_u64_from_le_bytes(b.subrange(12, 20)),
        payload_len: spec_u32_from_le_bytes(b.subrange(20, 24)),
    }
}

/// Encodes a frame header into its 24 wire bytes.
pub fn encode_header(h: &FrameHeader) -> (r: Vec<u8>)
    ensures
        r@ == header_bytes(*h),
        r@.len() == FRAME_HEADER_LEN,
{
    proof { lemma_le_round_trips(); }
    let mut buf: Vec<u8> = Vec::new();
    put_u16(&mut buf, h.version);
    put_u16(&mut buf, h.request_kind);
    put_u16(&mut buf, h.flags);
    put_u16(&mut buf, h.reserved);
    put_u32(&mut buf, h.request_id);
    put_u64(&mut buf, h.session_id);
    put_u32(&mut buf, h.payload_len);
    assert(buf@ =~= header_bytes(*h));
    buf
}

/// Parses the 24 wire bytes of a frame header.
pub fn parse_header(buf: &[u8]) -> (r: FrameHeader)
    requires
        buf@.len() == FRAME_HEADER_LEN,
    ensures
        r == header_of_bytes(buf@),
{
    FrameHeader {
        version: get_u16(buf, 0),
        request_kind: get_u16(buf, 2),
        flags: get_u16(buf, 4),
        reserved: get_u16(buf, 6),
        request_id: get_u32(buf, 8),
        session_id: get_u64(buf, 12),
        payload_len: get_u32(buf, 20),
    }
}

/// Parsing the encoding of a header gives the header back.
pub proof fn lemma_header_round_trip(h: FrameHeader)
    ensures
        header_bytes(h).len() == FRAME_HEADER_LEN,
        header_of_bytes(header_bytes(h)) == h,
{
    lemma_le_round_trips();
    let b = header_bytes(h);
    assert(b.subrange(0, 2) =~= spec_u16_to_le_bytes(h.version));
    assert(b.subrange(2, 4) =~= spec_u16_to_le_bytes(h.request_kind));
    assert(b.subrange(4, 6) =~= spec_u16_to_le_bytes(h.flags));
    assert(b.subrange(6, 8) =~= spec_u16_to_le_bytes(h.reserved));
    assert(b.subrange(8, 12) =~= spec_u32_to_le_bytes(h.request_id));
    assert(b.subrange(12, 20) =~= spec_u64_to_le_bytes(h.session_id));
    assert(b.subrange(20, 24) =~= spec_u32_to_le_bytes(h.payload_len));
}

/// A request frame: header and serialised payload.
#[derive(Debug, Clone)]
pub struct RequestFrame {
    pub header: FrameHeader,
    pub payload: Vec<u8>,
}

/// A response frame: the request it answers, a status and a payload.
#[derive(Debug, Clone)]
pub struct ResponseFrame {
    pub request_id: u32,
    pub status: ErrorCode,
    pub payload: Vec<u8>,
}

} // verus!
