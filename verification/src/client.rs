//! Client bootstrap: connection options and request headers derived from
//! the shared configuration.
use vstd::prelude::*;

use crate::config::{ServiceConfig, TransportMode};
use crate::codec::put_bytes;
use crate::error::{ErrorCode, error_code_of};
use crate::platform::{default_endpoint, endpoint_for, transport_for, OperatingSystem};
use crate::text::owned;
use crate::wire::{FrameHeader, RequestKind, encode_header, header_bytes, header_of_bytes, parse_header, request_kind_value, FRAME_HEADER_LEN, PROTOCOL_VERSION_V1};

verus! {

/// The endpoint both client and server derive from a transport mode:
/// `Auto` is the platform default, the other modes have fixed addresses.
pub open spec fn bootstrap_endpoint(mode: TransportMode, os: OperatingSystem) -> Seq<char> {
    match mode {
        TransportMode::Auto => endpoint_for(transport_for(os), "rookeeper"@),
        TransportMode::UnixDomainSocket => "unix:///tmp/rookeeper.sock"@,
        TransportMode::NamedPipe => "pipe://./pipe/rookeeper"@,
        TransportMode::LocalTcp => "tcp://127.0.0.1:9641/rookeeper"@,
    }
}

/// Computes the endpoint of [`bootstrap_endpoint`].
pub fn endpoint_for_mode(mode: TransportMode, os: OperatingSystem) -> (r: String)
    ensures
        r@ == bootstrap_endpoint(mode, os),
{
    match mode {
        TransportMode::Auto => default_endpoint("rookeeper", os),
        TransportMode::UnixDomainSocket => owned("unix:///tmp/rookeeper.sock"),
        TransportMode::NamedPipe => owned("pipe://./pipe/rookeeper"),
        TransportMode::LocalTcp => owned("tcp://127.0.0.1:9641/rookeeper"),
    }
}

/// Client connection options.
#[derive(Debug, Clone, PartialEq, Eq)]
pub struct ClientOptions {
    pub endpoint: String,
    pub auth_token: Option<String>,
    pub timeout_ms: u64,
}

impl ClientOptions {
    /// The default options on a system: the platform endpoint of the
    /// `rookeeper` service, no token, a three-second timeout.
    pub fn default_for(os: OperatingSystem) -> (r: ClientOptions)
        ensures
            r.endpoint@ == endpoint_for(transport_for(os), "rookeeper"@),
            r.auth_token is None,
            r.timeout_ms == 3_000,
    {
        ClientOptions { endpoint: default_endpoint("rookeeper", os), auth_token: None, timeout_ms: 3_000 }
    }
}

/// Everything a client needs before it connects.
#[derive(Debug, Clone, PartialEq, Eq)]
pub struct ClientBootstrap {
    pub options: ClientOptions,
}

impl ClientBootstrap {
    /// Derives the client options from the service configuration.
    pub fn from_config(config: &ServiceConfig, os: OperatingSystem) -> (r: ClientBootstrap)
        ensures
            r.options.endpoint@ == bootstrap_endpoint(config.server.primary_transport, os),
            r.options.auth_token is None,
            r.options.timeout_ms == config.server.session_timeout_ms,
    {
        let endpoint = endpoint_for_mode(config.server.primary_transport, os);
        ClientBootstrap {
            options: ClientOptions {
                endpoint,
                auth_token: None,
                timeout_ms: config.server.session_timeout_ms,
            },
        }
    }

    /// A request header with session id 0; the server assigns sessions.
    pub fn build_header(&self, kind: RequestKind, request_id: u32, payload_len: u32) -> (r: FrameHeader)
        ensures
            r == (FrameHeader {
                version: PROTOCOL_VERSION_V1,
                request_kind: request_kind_value(kind),
                flags: 0,
                reserved: 0,
                request_id,
                session_id: 0,
                payload_len,
            }),
    {
        FrameHeader::new(kind, request_id, 0, payload_len)
    }
}

/// Errors reported by the client SDK.
#[derive(Debug)]
pub enum SdkError {
    Io(std::io::Error),
    Protocol(String),
    ServerError(ErrorCode),
    Serialization(String),
}

/// The bytes of a request frame: the header for `kind`, `request_id` and
/// `session_id` with the payload's length (modulo 2^32), then the payload.
pub open spec fn request_frame(kind: RequestKind, request_id: u32, session_id: u64, payload: Seq<u8>) -> Seq<u8> {
    header_bytes(FrameHeader {
        version: PROTOCOL_VERSION_V1,
        request_kind: request_kind_value(kind),
        flags: 0,
        reserved: 0,
        request_id,
        session_id,
        payload_len: (payload.len() % 0x1_0000_0000) as u32,
    }) + payload
}

/// The status a client reads from a response header: the code in the
/// header's third pair of bytes (where the flags stand); unknown values
/// read as `Internal`.
pub open spec fn response_status(h: FrameHeader) -> ErrorCode {
    match error_code_of(h.flags) {
        Some(c) => c,
        None => ErrorCode::Internal,
    }
}

/// Builds the frame of a request (see `request_frame`).
pub fn frame_request(kind: RequestKind, request_id: u32, session_id: u64, payload: &[u8]) -> (r: Vec<u8>)
    ensures
        r@ == request_frame(kind, request_id, session_id, payload@),
{
    let payload_len: u32 = ((payload.len() as u64) % 0x1_0000_0000u64) as u32;
    let header = FrameHeader::new(kind, request_id, session_id, payload_len);
    let mut frame = encode_header(&header);
    put_bytes(&mut frame, payload);
    frame
}

/// Reads a response header for the request `request_id`: its status and
/// payload length, or a protocol error when it answers another request.
pub fn read_response_header(buf: &[u8; FRAME_HEADER_LEN], request_id: u32) -> (r: Result<(ErrorCode, u32), SdkError>)
    ensures
        header_of_bytes(buf@).request_id != request_id
            ==> (r matches Err(SdkError::Protocol(m)) && m@ == "Request ID mismatch"@),
        header_of_bytes(buf@).request_id == request_id
            ==> (r matches Ok((status, len)) && status == response_status(header_of_bytes(buf@))
                && len == header_of_bytes(buf@).payload_len),
{
    let bytes = buf.as_slice();
    assert(bytes@ == buf@);
    let header = parse_header(bytes);
    if header.request_id != request_id {
        return Err(SdkError::Protocol(owned("Request ID mismatch")));
    }
    Ok((ErrorCode::from_u16(header.flags), header.payload_len))
}

/// A response status as the SDK reports it: success, or the server's
/// error code.
pub fn check_status(status: ErrorCode) -> (r: Result<(), SdkError>)
    ensures
        status == ErrorCode::Success ==> r is Ok,
        status != ErrorCode::Success ==> (r matches Err(SdkError::ServerError(c)) && c == status),
{
    if status == ErrorCode::Success {
        Ok(())
    } else {
        Err(SdkError::ServerError(status))
    }
}

} // verus!
