//! Request processing of the server: decoded requests are applied to the
//! tree store, watchers of changed paths are notified, and responses are
//! framed for the wire. Reading and writing sockets, and (de)serialising
//! the library's own types, happen around this module.
use vstd::prelude::*;
use vstd::bytes::*;

use crate::acl::Permission;
use crate::config::RuntimeMode;
use crate::error::{ErrorCode, error_code_value};
use crate::layout::{decimal_chars, decimal_digits};
use crate::model::{NodePath, SessionId};
use crate::strmap::lookup;
use crate::text::{owned, push_chars, push_str_chars, utf8_bytes};
use crate::tree_kv::{TreeKv, TreeKvError, TreeKvEvent, KvNodeView, create_outcome, path_views, sorted_children, delete_outcome, set_outcome, tree_error_code};
use crate::watch::{WatchManager, PatternView, lemma_nothing_published, WatchEventKind, WatchEventView, change_events, matching_sessions, published_some, watch_pattern};
use crate::wire::{FrameHeader, HealthCheckResponse, MetricsResponse, RequestKind, ResponseFrame, FRAME_HEADER_LEN, PROTOCOL_VERSION_V1, encode_header, header_bytes, header_of_bytes, request_kind_value};

verus! {

/// Errors that end a connection.
#[derive(Debug)]
pub enum ServerError {
    Io(std::io::Error),
    Protocol(String),
    Internal(String),
}

impl From<std::io::Error> for ServerError {
    fn from(err: std::io::Error) -> (r: ServerError) {
        ServerError::Io(err)
    }
}

impl vstd::std_specs::convert::FromSpecImpl<std::io::Error> for ServerError {
    open spec fn obeys_from_spec() -> bool {
        true
    }

    open spec fn from_spec(v: std::io::Error) -> ServerError {
        ServerError::Io(v)
    }
}

/// Reads a node.
#[derive(Debug)]
pub struct GetRequest {
    pub path: NodePath,
}

/// Creates a node.
#[derive(Debug)]
pub struct CreateRequest {
    pub path: NodePath,
    pub value: Vec<u8>,
    pub ttl_seconds: Option<u64>,
}

/// Replaces a node's value.
#[derive(Debug)]
pub struct SetRequest {
    pub path: NodePath,
    pub value: Vec<u8>,
    pub expected_version: Option<u64>,
    pub ttl_seconds: Option<u64>,
}

/// Deletes a node.
#[derive(Debug)]
pub struct DeleteRequest {
    pub path: NodePath,
}

/// Lists a node's children.
#[derive(Debug)]
pub struct ListRequest {
    pub path: NodePath,
}

/// Subscribes to changes of a path.
#[derive(Debug)]
pub struct WatchRequest {
    pub path: NodePath,
    pub recursive: bool,
}

/// A request as decoded from its frame, by the kind its header names. A
/// payload that could not be decoded carries the decoder's message.
#[derive(Debug)]
pub enum RequestBody {
    Get(Result<GetRequest, String>),
    Create(Result<CreateRequest, String>),
    SetValue(Result<SetRequest, String>),
    Delete(Result<DeleteRequest, String>),
    List(Result<ListRequest, String>),
    Watch(Result<WatchRequest, String>),
    HealthCheck,
    Metrics,
    /// A kind this server does not serve.
    Unsupported,
}

/// The payload of a response: bytes ready for the wire, or a value of the
/// library that is serialised on the way out.
#[derive(Debug)]
pub enum ResponseBody {
    Encoded(Vec<u8>),
    Children(Vec<NodePath>),
    Health(HealthCheckResponse),
    Metrics(MetricsResponse),
}

/// A response before framing.
#[derive(Debug)]
pub struct ServerResponse {
    pub request_id: u32,
    pub status: ErrorCode,
    pub body: ResponseBody,
}

/// The subject under which requests act on the tree.
pub const ANONYMOUS_SUBJECT: &'static str = "anonymous";

/// The status that reports an operation's refusal, or success.
pub open spec fn outcome_status(err: Option<TreeKvError>) -> ErrorCode {
    match err {
        None => ErrorCode::Success,
        Some(e) => tree_error_code(e),
    }
}

/// A response with the given status and an empty payload.
pub open spec fn plain_response(r: ServerResponse, request_id: u32, status: ErrorCode) -> bool {
    &&& r.request_id == request_id
    &&& r.status == status
    &&& r.body matches ResponseBody::Encoded(b) && b@.len() == 0
}

/// The payload that reports a request that could not be decoded.
pub open spec fn parse_error_text(message: Seq<char>) -> Seq<char> {
    "Parse error: "@ + message
}

/// The metrics text in Prometheus format.
pub open spec fn metrics_text(node_count: nat, command_id: nat) -> Seq<char> {
    "# HELP rookeeper_node_count Number of nodes in the tree\n# TYPE rookeeper_node_count gauge\nrookeeper_node_count "@
        + decimal_digits(node_count)
        + "\n# HELP rookeeper_command_id Current command ID\n# TYPE rookeeper_command_id counter\nrookeeper_command_id "@
        + decimal_digits(command_id) + "\n"@
}

/// The name of a runtime mode as reported by health checks.
pub open spec fn runtime_mode_name(m: RuntimeMode) -> Seq<char> {
    match m {
        RuntimeMode::Memory => "memory"@,
        RuntimeMode::Persistent => "persistent"@,
    }
}

/// The bytes `bincode::serialize` gives for a byte string under its
/// default options (fixed-width little-endian integers): the length as a
/// `u64`, then the bytes.
pub open spec fn bincode_byte_string(b: Seq<u8>) -> Seq<u8> {
    spec_u64_to_le_bytes(b.len() as u64) + b
}

/// The bytes `bincode::serialize` gives for a `usize` under its default
/// options: the value as a little-endian `u64`.
pub open spec fn bincode_index(n: usize) -> Seq<u8> {
    spec_u64_to_le_bytes(n as u64)
}

/// The error type of `bincode`.
#[verifier::external_type_specification]
#[verifier::external_body]
pub struct ExBincodeErrorKind(bincode::ErrorKind);

/// Serialises a byte string with `bincode::serialize` under its default
/// options (see `bincode_byte_string`). A byte string has a length and
/// there is no size limit, so serialising into a `Vec` does not fail.
#[verifier::external_body]
fn encode_byte_string(b: &Vec<u8>) -> (r: Result<Vec<u8>, Box<bincode::ErrorKind>>)
    ensures
        r is Ok,
        r matches Ok(v) ==> v@ == bincode_byte_string(b@),
{
    bincode::serialize(b)
}

/// Serialises a `usize` with `bincode::serialize` under its default
/// options (see `bincode_index`); serialising into a `Vec` does not fail.
#[verifier::external_body]
fn encode_index(n: usize) -> (r: Result<Vec<u8>, Box<bincode::ErrorKind>>)
    ensures
        r is Ok,
        r matches Ok(v) ==> v@ == bincode_index(n),
{
    bincode::serialize(&n)
}

/// The display text of a `bincode` error.
#[verifier::external_body]
fn bincode_error_text(e: &Box<bincode::ErrorKind>) -> String {
    format!("{}", e)
}

/// `prefix` followed by the display text of a `bincode` error.
fn serialization_error(prefix: &str, e: &Box<bincode::ErrorKind>) -> (r: ServerError)
    ensures
        r matches ServerError::Internal(t) && prefix@.is_prefix_of(t@),
{
    let mut text = owned(prefix);
    let detail = bincode_error_text(e);
    push_str_chars(&mut text, detail.as_str());
    assert(text@.subrange(0, prefix@.len() as int) =~= prefix@);
    ServerError::Internal(text)
}

/// The response to a request whose payload could not be decoded: an
/// internal error whose payload is the UTF-8 text `Parse error: <message>`.
fn parse_error_response(request_id: u32, message: &String) -> (r: ServerResponse)
    ensures
        r.request_id == request_id,
        r.status == ErrorCode::Internal,
        r.body matches ResponseBody::Encoded(b) && b@ == vstd::utf8::encode_utf8(parse_error_text(message@)),
{
    let mut text = owned("Parse error: ");
    push_str_chars(&mut text, message.as_str());
    let bytes = utf8_bytes(&text);
    let mut payload: Vec<u8> = Vec::new();
    crate::codec::put_bytes(&mut payload, bytes);
    assert(payload@ =~= vstd::utf8::encode_utf8(parse_error_text(message@)));
    ServerResponse { request_id, status: ErrorCode::Internal, body: ResponseBody::Encoded(payload) }
}

/// The response frame header: a `Get` kind (unused on responses), the
/// status's wire value in the flags field (where clients read it), the
/// request id, session 0 and the payload length, truncated to 32 bits.
pub open spec fn response_header(request_id: u32, status: ErrorCode, payload_len: nat) -> FrameHeader {
    FrameHeader {
        version: PROTOCOL_VERSION_V1,
        request_kind: request_kind_value(RequestKind::Get),
        flags: error_code_value(status),
        reserved: 0,
        request_id,
        session_id: 0,
        payload_len: (payload_len % 0x1_0000_0000) as u32,
    }
}

/// The bytes of a framed response: the response header, then the
/// encoded payload.
pub open spec fn framed_response(request_id: u32, status: ErrorCode, encoded_payload: Seq<u8>) -> Seq<u8> {
    header_bytes(response_header(request_id, status, encoded_payload.len())) + encoded_payload
}

/// The reply to reading `path` as the anonymous subject: refused without
/// read permission, not found for a missing node, else the node's value
/// serialised.
pub open spec fn get_reply(t: TreeKv, request_id: u32, path: Seq<char>, r: Result<ServerResponse, ServerError>) -> bool {
    if !t.may(path, Permission::Read, ANONYMOUS_SUBJECT@) {
        r matches Ok(resp) && plain_response(resp, request_id, ErrorCode::PermissionDenied)
    } else {
        match lookup(t.entries(), path) {
            None => r matches Ok(resp) && plain_response(resp, request_id, ErrorCode::PathNotFound),
            Some(n) => r matches Ok(resp) && resp.request_id == request_id && resp.status == ErrorCode::Success
                && (resp.body matches ResponseBody::Encoded(b) && b@ == bincode_byte_string(n.value)),
        }
    }
}

/// The parts of the server a tree operation leaves alone.
pub open spec fn same_outside_tree(old: RookeeperServer, new: RookeeperServer) -> bool {
    &&& new.tree_kv.default_permissions() == old.tree_kv.default_permissions()
    &&& new.watch_manager@ == old.watch_manager@
    &&& new.mode == old.mode
    &&& new.version == old.version
}

/// The events a successful change of kind `kind` on `path` publishes: one
/// for each session that follows `path`; none after a refusal.
pub open spec fn notified_events(old: RookeeperServer, kind: WatchEventKind, path: Seq<char>, err: Option<TreeKvError>) -> Seq<WatchEventView> {
    if err is None {
        change_events(kind, path, matching_sessions(old.watch_manager@, path))
    } else {
        Seq::empty()
    }
}

/// The inputs on which creating `path` can be carried out: a command id
/// is left.
pub open spec fn create_allowed(s: RookeeperServer, path: Seq<char>) -> bool {
    s.tree_kv.command_id_spec() < u64::MAX
}

/// Creating `path` with `value` (see `create_outcome`), answered with the
/// outcome's status.
pub open spec fn create_effect(old: RookeeperServer, new: RookeeperServer, request_id: u32, path: Seq<char>, value: Seq<u8>, r: Result<ServerResponse, ServerError>) -> bool {
    let (e, c, err) = create_outcome(old.tree_kv.entries(), old.tree_kv.command_id_spec(), path, value);
    &&& new.tree_kv.entries() == e
    &&& new.tree_kv.command_id_spec() == c
    &&& same_outside_tree(old, new)
    &&& new.watch_manager.offered() == old.watch_manager.offered() + notified_events(old, WatchEventKind::NodeCreated, path, err)
    &&& published_some(old.watch_manager.sent(), new.watch_manager.sent(), notified_events(old, WatchEventKind::NodeCreated, path, err))
    &&& r matches Ok(resp) && plain_response(resp, request_id, outcome_status(err))
}

/// The inputs on which setting `path` can be carried out: a command id and
/// a version are left.
pub open spec fn set_allowed(s: RookeeperServer, path: Seq<char>) -> bool {
    &&& s.tree_kv.command_id_spec() < u64::MAX
    &&& lookup(s.tree_kv.entries(), path) matches Some(n) ==> n.metadata.version < u64::MAX
}

/// Setting `path` to `value` as the anonymous subject (see
/// `set_outcome`), answered with the outcome's status.
pub open spec fn set_effect(old: RookeeperServer, new: RookeeperServer, request_id: u32, path: Seq<char>, value: Seq<u8>, expected_version: Option<u64>, r: Result<ServerResponse, ServerError>) -> bool {
    let (e, c, err) = set_outcome(old.tree_kv.entries(), old.tree_kv.default_permissions(),
        old.tree_kv.command_id_spec(), path, value, expected_version, ANONYMOUS_SUBJECT@);
    &&& new.tree_kv.entries() == e
    &&& new.tree_kv.command_id_spec() == c
    &&& same_outside_tree(old, new)
    &&& new.watch_manager.offered() == old.watch_manager.offered() + notified_events(old, WatchEventKind::NodeUpdated, path, err)
    &&& published_some(old.watch_manager.sent(), new.watch_manager.sent(), notified_events(old, WatchEventKind::NodeUpdated, path, err))
    &&& r matches Ok(resp) && plain_response(resp, request_id, outcome_status(err))
}

/// Deleting `path` as the anonymous subject (see `delete_outcome`),
/// answered with the outcome's status.
pub open spec fn delete_effect(old: RookeeperServer, new: RookeeperServer, request_id: u32, path: Seq<char>, r: Result<ServerResponse, ServerError>) -> bool {
    let (e, err) = delete_outcome(old.tree_kv.entries(), old.tree_kv.default_permissions(), path, ANONYMOUS_SUBJECT@);
    &&& new.tree_kv.entries() == e
    &&& new.tree_kv.command_id_spec() == old.tree_kv.command_id_spec()
    &&& same_outside_tree(old, new)
    &&& new.watch_manager.offered() == old.watch_manager.offered() + notified_events(old, WatchEventKind::NodeDeleted, path, err)
    &&& published_some(old.watch_manager.sent(), new.watch_manager.sent(), notified_events(old, WatchEventKind::NodeDeleted, path, err))
    &&& r matches Ok(resp) && plain_response(resp, request_id, outcome_status(err))
}

/// The reply to listing `path` as the anonymous subject: refused without
/// read permission, not found for a missing node, else its children.
pub open spec fn list_reply(t: TreeKv, request_id: u32, path: Seq<char>, r: Result<ServerResponse, ServerError>) -> bool {
    if !t.may(path, Permission::Read, ANONYMOUS_SUBJECT@) {
        r matches Ok(resp) && plain_response(resp, request_id, ErrorCode::PermissionDenied)
    } else {
        match lookup(t.entries(), path) {
            None => r matches Ok(resp) && plain_response(resp, request_id, ErrorCode::PathNotFound),
            Some(_) => r matches Ok(resp) && resp.request_id == request_id && resp.status == ErrorCode::Success
                && (resp.body matches ResponseBody::Children(c)
                    && sorted_children(path_views(c@), t.entries(), path)),
        }
    }
}

/// Registering a watch of `session_id` on `path`, answered with the
/// subscription's index serialised.
pub open spec fn watch_effect(old: RookeeperServer, new: RookeeperServer, request_id: u32, session_id: SessionId, path: Seq<char>, recursive: bool, r: Result<ServerResponse, ServerError>) -> bool {
    let subs = crate::watch::session_subs(old.watch_manager@, session_id);
    &&& new.watch_manager@ == crate::strmap::entries_insert(old.watch_manager@, session_id,
            subs.push((watch_pattern(path, recursive), recursive)))
    &&& new.watch_manager.sent() == old.watch_manager.sent()
    &&& new.watch_manager.offered() == old.watch_manager.offered()
    &&& new.tree_kv == old.tree_kv
    &&& new.mode == old.mode
    &&& new.version == old.version
    &&& r matches Ok(resp) && resp.request_id == request_id && resp.status == ErrorCode::Success
        && (resp.body matches ResponseBody::Encoded(b) && b@ == bincode_index(subs.len() as usize))
}

/// The health report for request `request_id`: healthy, the default
/// runtime mode's name, the version, the uptime and the number of nodes.
pub open spec fn health_reply(s: RookeeperServer, request_id: u32, uptime_seconds: u64, r: Result<ServerResponse, ServerError>) -> bool {
    r matches Ok(resp) && resp.request_id == request_id && resp.status == ErrorCode::Success
        && (resp.body matches ResponseBody::Health(h)
            && h.healthy
            && h.mode@ == runtime_mode_name(RuntimeMode::Memory)
            && h.version@ == s.version@
            && h.uptime_seconds == uptime_seconds
            && h.node_count == s.tree_kv.entries().len())
}

/// The metrics report for request `request_id`: the Prometheus text.
pub open spec fn metrics_reply(s: RookeeperServer, request_id: u32, r: Result<ServerResponse, ServerError>) -> bool {
    r matches Ok(resp) && resp.request_id == request_id && resp.status == ErrorCode::Success
        && (resp.body matches ResponseBody::Metrics(m)
            && m.prometheus_text@ == metrics_text(s.tree_kv.entries().len(), s.tree_kv.command_id_spec() as nat))
}

/// The message of a request that could not be decoded, if any.
pub open spec fn decode_failure(body: RequestBody) -> Option<String> {
    match body {
        RequestBody::Get(Err(m)) => Some(m),
        RequestBody::Create(Err(m)) => Some(m),
        RequestBody::SetValue(Err(m)) => Some(m),
        RequestBody::Delete(Err(m)) => Some(m),
        RequestBody::List(Err(m)) => Some(m),
        RequestBody::Watch(Err(m)) => Some(m),
        _ => None,
    }
}

/// The inputs on which a request can be carried out (see the `_allowed`
/// predicates of the mutating requests).
pub open spec fn request_allowed(s: RookeeperServer, body: RequestBody) -> bool {
    match body {
        RequestBody::Create(Ok(req)) => create_allowed(s, req.path@),
        RequestBody::SetValue(Ok(req)) => set_allowed(s, req.path@),
        _ => true,
    }
}

/// What processing a request does: a payload that could not be decoded
/// is answered with an internal error carrying `Parse error: <message>`;
/// an unsupported kind with an empty internal error; every other request
/// as its handler does.
pub open spec fn request_effect(old: RookeeperServer, new: RookeeperServer, request_id: u32, body: RequestBody, session_id: SessionId, uptime_seconds: u64, r: Result<ServerResponse, ServerError>) -> bool {
    match decode_failure(body) {
        Some(m) => new == old && (r matches Ok(resp) && resp.request_id == request_id && resp.status == ErrorCode::Internal
            && (resp.body matches ResponseBody::Encoded(b) && b@ == vstd::utf8::encode_utf8(parse_error_text(m@)))),
        None => match body {
            RequestBody::Get(Ok(req)) => new == old && get_reply(old.tree_kv, request_id, req.path@, r),
            RequestBody::Create(Ok(req)) => create_effect(old, new, request_id, req.path@, req.value@, r),
            RequestBody::SetValue(Ok(req)) => set_effect(old, new, request_id, req.path@, req.value@, req.expected_version, r),
            RequestBody::Delete(Ok(req)) => delete_effect(old, new, request_id, req.path@, r),
            RequestBody::List(Ok(req)) => new == old && list_reply(old.tree_kv, request_id, req.path@, r),
            RequestBody::Watch(Ok(req)) => watch_effect(old, new, request_id, session_id, req.path@, req.recursive, r),
            RequestBody::HealthCheck => new == old && health_reply(old, request_id, uptime_seconds, r),
            RequestBody::Metrics => new == old && metrics_reply(old, request_id, r),
            _ => new == old && (r matches Ok(resp) && plain_response(resp, request_id, ErrorCode::Internal)),
        },
    }
}

/// The server's state: the tree store and the watch subscriptions, with
/// the runtime mode and version it reports.
pub struct RookeeperServer {
    pub tree_kv: TreeKv,
    pub watch_manager: WatchManager,
    pub mode: RuntimeMode,
    pub version: String,
}

impl RookeeperServer {
    /// A server with an empty store and no subscriptions.
    pub fn new(mode: RuntimeMode, version: String) -> (r: RookeeperServer)
        ensures
            r.tree_kv.entries().len() == 0,
            r.tree_kv.command_id_spec() == 0,
            r.watch_manager@ == Seq::<(u64, Seq<(PatternView, bool)>)>::empty(),
            r.watch_manager.sent() == Seq::<WatchEventView>::empty(),
            r.watch_manager.offered() == Seq::<WatchEventView>::empty(),
            r.mode == mode,
            r.version == version,
    {
        RookeeperServer { tree_kv: TreeKv::new(), watch_manager: WatchManager::new(), mode, version }
    }

    /// Parses the 24 header bytes of a frame.
    pub fn parse_header(buf: &[u8; FRAME_HEADER_LEN]) -> (r: Result<FrameHeader, ServerError>)
        ensures
            r matches Ok(h) && h == header_of_bytes(buf@),
    {
        let bytes = buf.as_slice();
        assert(bytes@ == buf@);
        Ok(crate::wire::parse_header(bytes))
    }

    /// Whether `body` may be handed to `process_request` (see
    /// `request_allowed`): the command counter and the version it would
    /// bump have room.
    pub fn request_is_allowed(&self, body: &RequestBody) -> (r: bool)
        ensures
            r == request_allowed(*self, *body),
    {
        match body {
            RequestBody::Create(Ok(req)) => {
                if self.tree_kv.command_id() == u64::MAX {
                    return false;
                }
                true
            },
            RequestBody::SetValue(Ok(req)) => {
                if self.tree_kv.command_id() == u64::MAX {
                    return false;
                }
                match self.tree_kv.node(&req.path) {
                    None => true,
                    Some(n) => n.metadata.version < u64::MAX,
                }
            },
            _ => true,
        }
    }

    /// Processes one decoded request of the frame with header `header`
    /// (see `request_effect`).
    pub fn process_request(&mut self, header: &FrameHeader, body: RequestBody, session_id: SessionId, uptime_seconds: u64) -> (r: Result<ServerResponse, ServerError>)
        requires
            request_allowed(*old(self), body),
        ensures
            request_effect(*old(self), *final(self), header.request_id, body, session_id, uptime_seconds, r),
    {
        let request_id = header.request_id;
        match body {
            RequestBody::Get(Ok(req)) => self.handle_get(request_id, &req),
            RequestBody::Create(Ok(req)) => self.handle_create(request_id, req),
            RequestBody::SetValue(Ok(req)) => self.handle_set(request_id, req),
            RequestBody::Delete(Ok(req)) => self.handle_delete(request_id, req),
            RequestBody::List(Ok(req)) => self.handle_list(request_id, &req),
            RequestBody::Watch(Ok(req)) => self.handle_watch(request_id, session_id, req),
            RequestBody::Get(Err(m)) => Ok(parse_error_response(request_id, &m)),
            RequestBody::Create(Err(m)) => Ok(parse_error_response(request_id, &m)),
            RequestBody::SetValue(Err(m)) => Ok(parse_error_response(request_id, &m)),
            RequestBody::Delete(Err(m)) => Ok(parse_error_response(request_id, &m)),
            RequestBody::List(Err(m)) => Ok(parse_error_response(request_id, &m)),
            RequestBody::Watch(Err(m)) => Ok(parse_error_response(request_id, &m)),
            RequestBody::HealthCheck => self.handle_health_check(request_id, uptime_seconds),
            RequestBody::Metrics => self.handle_metrics(request_id),
            RequestBody::Unsupported => Ok(ServerResponse { request_id, status: ErrorCode::Internal, body: ResponseBody::Encoded(Vec::new()) }),
        }
    }

    /// Reads a node as the anonymous subject: its value, serialised, or the
    /// refusal.
    pub fn handle_get(&self, request_id: u32, request: &GetRequest) -> (r: Result<ServerResponse, ServerError>)
        ensures
            get_reply(self.tree_kv, request_id, request.path@, r),
    {
        match self.tree_kv.get(&request.path, ANONYMOUS_SUBJECT) {
            Ok(node) => {
                let value = node.value.clone();
                match encode_byte_string(&value) {
                    Ok(payload) => Ok(ServerResponse { request_id, status: ErrorCode::Success, body: ResponseBody::Encoded(payload) }),
                    Err(e) => Err(serialization_error("Serialization error: ", &e)),
                }
            },
            Err(e) => Ok(ServerResponse { request_id, status: ErrorCode::from(e), body: ResponseBody::Encoded(Vec::new()) }),
        }
    }

    /// Creates a node; on success, watchers of its path are notified.
    pub fn handle_create(&mut self, request_id: u32, request: CreateRequest) -> (r: Result<ServerResponse, ServerError>)
        requires
            create_allowed(*old(self), request.path@),
        ensures
            create_effect(*old(self), *final(self), request_id, request.path@, request.value@, r),
    {
        match self.tree_kv.create(&request.path, request.value, ANONYMOUS_SUBJECT) {
            Ok(()) => {
                let event = TreeKvEvent::NodeCreated(request.path.clone());
                self.watch_manager.notify(&request.path, &event);
                Ok(ServerResponse { request_id, status: ErrorCode::Success, body: ResponseBody::Encoded(Vec::new()) })
            },
            Err(e) => {
                proof { lemma_nothing_published(self.watch_manager.sent()); }
                Ok(ServerResponse { request_id, status: ErrorCode::from(e), body: ResponseBody::Encoded(Vec::new()) })
            },
        }
    }

    /// Replaces a node's value as the anonymous subject; on success,
    /// watchers of its path are notified.
    pub fn handle_set(&mut self, request_id: u32, request: SetRequest) -> (r: Result<ServerResponse, ServerError>)
        requires
            set_allowed(*old(self), request.path@),
        ensures
            set_effect(*old(self), *final(self), request_id, request.path@, request.value@, request.expected_version, r),
    {
        match self.tree_kv.set(&request.path, request.value, request.expected_version, ANONYMOUS_SUBJECT) {
            Ok(()) => {
                let event = TreeKvEvent::NodeUpdated(request.path.clone());
                self.watch_manager.notify(&request.path, &event);
                Ok(ServerResponse { request_id, status: ErrorCode::Success, body: ResponseBody::Encoded(Vec::new()) })
            },
            Err(e) => {
                proof { lemma_nothing_published(self.watch_manager.sent()); }
                Ok(ServerResponse { request_id, status: ErrorCode::from(e), body: ResponseBody::Encoded(Vec::new()) })
            },
        }
    }

    /// Deletes a node as the anonymous subject; on success, watchers of its
    /// path are notified.
    pub fn handle_delete(&mut self, request_id: u32, request: DeleteRequest) -> (r: Result<ServerResponse, ServerError>)
        ensures
            delete_effect(*old(self), *final(self), request_id, request.path@, r),
    {
        match self.tree_kv.delete(&request.path, ANONYMOUS_SUBJECT) {
            Ok(()) => {
                let event = TreeKvEvent::NodeDeleted(request.path.clone());
                self.watch_manager.notify(&request.path, &event);
                Ok(ServerResponse { request_id, status: ErrorCode::Success, body: ResponseBody::Encoded(Vec::new()) })
            },
            Err(e) => {
                proof { lemma_nothing_published(self.watch_manager.sent()); }
                Ok(ServerResponse { request_id, status: ErrorCode::from(e), body: ResponseBody::Encoded(Vec::new()) })
            },
        }
    }

    /// Lists a node's direct children as the anonymous subject.
    pub fn handle_list(&self, request_id: u32, request: &ListRequest) -> (r: Result<ServerResponse, ServerError>)
        ensures
            list_reply(self.tree_kv, request_id, request.path@, r),
    {
        match self.tree_kv.list(&request.path, ANONYMOUS_SUBJECT) {
            Ok(children) => Ok(ServerResponse { request_id, status: ErrorCode::Success, body: ResponseBody::Children(children) }),
            Err(e) => Ok(ServerResponse { request_id, status: ErrorCode::from(e), body: ResponseBody::Encoded(Vec::new()) }),
        }
    }

    /// Registers a watch of the session and answers with the
    /// subscription's index, serialised.
    pub fn handle_watch(&mut self, request_id: u32, session_id: SessionId, request: WatchRequest) -> (r: Result<ServerResponse, ServerError>)
        ensures
            watch_effect(*old(self), *final(self), request_id, session_id, request.path@, request.recursive, r),
    {
        let subscription_id = self.watch_manager.register_watch(session_id, request.path, request.recursive);
        match encode_index(subscription_id) {
            Ok(payload) => Ok(ServerResponse { request_id, status: ErrorCode::Success, body: ResponseBody::Encoded(payload) }),
            Err(e) => Err(serialization_error("Serialization error: ", &e)),
        }
    }

    /// The health report: healthy, the default runtime mode's name, the
    /// version, the uptime given and the number of nodes, answering the
    /// request `request_id`.
    pub fn handle_health_check(&self, request_id: u32, uptime_seconds: u64) -> (r: Result<ServerResponse, ServerError>)
        ensures
            health_reply(*self, request_id, uptime_seconds, r),
    {
        let mode_name = match RuntimeMode::default() {
            RuntimeMode::Memory => "memory",
            RuntimeMode::Persistent => "persistent",
        };
        let response = HealthCheckResponse {
            healthy: true,
            mode: owned(mode_name),
            version: owned(self.version.as_str()),
            uptime_seconds,
            node_count: self.tree_kv.len(),
        };
        Ok(ServerResponse { request_id, status: ErrorCode::Success, body: ResponseBody::Health(response) })
    }

    /// The metrics report in Prometheus text format: node count and
    /// current command id, answering the request `request_id`.
    pub fn handle_metrics(&self, request_id: u32) -> (r: Result<ServerResponse, ServerError>)
        ensures
            metrics_reply(*self, request_id, r),
    {
        let node_count = self.tree_kv.len();
        let command_id = self.tree_kv.command_id();
        let mut text = owned("# HELP rookeeper_node_count Number of nodes in the tree\n# TYPE rookeeper_node_count gauge\nrookeeper_node_count ");
        let count_digits = decimal_chars(node_count as u64);
        push_chars(&mut text, &count_digits);
        push_str_chars(&mut text, "\n# HELP rookeeper_command_id Current command ID\n# TYPE rookeeper_command_id counter\nrookeeper_command_id ");
        let id_digits = decimal_chars(command_id);
        push_chars(&mut text, &id_digits);
        push_str_chars(&mut text, "\n");
        Ok(ServerResponse { request_id, status: ErrorCode::Success, body: ResponseBody::Metrics(MetricsResponse { prometheus_text: text }) })
    }

    /// The frame of a response: its header followed by the payload as
    /// `bincode` serialises a byte string.
    pub fn serialize_response(response: &ResponseFrame) -> (r: Result<Vec<u8>, ServerError>)
        ensures
            r matches Ok(bytes) && bytes@ == framed_response(response.request_id, response.status, bincode_byte_string(response.payload@)),
    {
        match encode_byte_string(&response.payload) {
            Ok(payload_bytes) => Ok(Self::frame_response(response.request_id, response.status, &payload_bytes)),
            Err(e) => Err(serialization_error("Payload serialization error: ", &e)),
        }
    }

    /// The response header for `request_id`, `status` and the encoded
    /// payload's length, followed by the encoded payload.
    pub fn frame_response(request_id: u32, status: ErrorCode, encoded_payload: &Vec<u8>) -> (r: Vec<u8>)
        ensures
            r@ == framed_response(request_id, status, encoded_payload@),
    {
        let len = encoded_payload.len();
        let payload_len: u32 = ((len as u64) % 0x1_0000_0000u64) as u32;
        let mut header = FrameHeader::new(RequestKind::Get, request_id, 0, payload_len);
        header.flags = status.as_u16();
        assert(header == response_header(request_id, status, encoded_payload@.len()));
        let mut out = encode_header(&header);
        crate::codec::put_bytes(&mut out, encoded_payload.as_slice());
        out
    }
}

} // verus!
