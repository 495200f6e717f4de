//! Service configuration: server, storage, authentication, observability
//! and compatibility sections, each with documented defaults.
use vstd::prelude::*;

use crate::text::owned;

verus! {

/// Transport selection; `Auto` picks the platform default.
#[derive(Debug, Clone, Copy, PartialEq, Eq, Structural)]
pub enum TransportMode {
    Auto,
    UnixDomainSocket,
    NamedPipe,
    LocalTcp,
}

impl Default for TransportMode {
    fn default() -> (r: TransportMode)
        ensures
            r == TransportMode::Auto,
    {
        TransportMode::Auto
    }
}

/// Authentication mode.
#[derive(Debug, Clone, Copy, PartialEq, Eq, Structural)]
pub enum AuthMode {
    Disabled,
    TokenFile,
}

impl Default for AuthMode {
    fn default() -> (r: AuthMode)
        ensures
            r == AuthMode::Disabled,
    {
        AuthMode::Disabled
    }
}

/// Log output format.
#[derive(Debug, Clone, Copy, PartialEq, Eq, Structural)]
pub enum LogFormat {
    Json,
    Pretty,
}

impl Default for LogFormat {
    fn default() -> (r: LogFormat)
        ensures
            r == LogFormat::Json,
    {
        LogFormat::Json
    }
}

/// Where the service keeps its state: in memory only, or also on disk.
#[derive(Debug, Clone, Copy, PartialEq, Eq, Structural)]
pub enum RuntimeMode {
    Memory,
    Persistent,
}

impl Default for RuntimeMode {
    fn default() -> (r: RuntimeMode)
        ensures
            r == RuntimeMode::Memory,
    {
        RuntimeMode::Memory
    }
}

/// Server runtime settings.
#[derive(Debug, Clone, PartialEq, Eq)]
pub struct ServerConfig {
    pub node_name: String,
    pub primary_transport: TransportMode,
    pub fallback_transport: TransportMode,
    pub request_queue_depth: usize,
    pub session_timeout_ms: u64,
}

impl Default for ServerConfig {
    fn default() -> (r: ServerConfig)
        ensures
            r.node_name@ == "local-node"@,
            r.primary_transport == TransportMode::Auto,
            r.fallback_transport == TransportMode::LocalTcp,
            r.request_queue_depth == 1024,
            r.session_timeout_ms == 30_000,
    {
        ServerConfig {
            node_name: owned("local-node"),
            primary_transport: TransportMode::Auto,
            fallback_transport: TransportMode::LocalTcp,
            request_queue_depth: 1024,
            session_timeout_ms: 30_000,
        }
    }
}

/// Storage settings: directory names and rollover limits.
#[derive(Debug, Clone, PartialEq, Eq)]
pub struct StorageConfig {
    pub root_dir: String,
    pub wal_dir: String,
    pub snapshot_dir: String,
    pub state_dir: String,
    pub lock_file: String,
    pub max_wal_segment_bytes: u64,
    pub snapshot_interval_commands: u64,
}

impl Default for StorageConfig {
    fn default() -> (r: StorageConfig)
        ensures
            r.root_dir@ == "./data"@,
            r.wal_dir@ == "wal"@,
            r.snapshot_dir@ == "snapshot"@,
            r.state_dir@ == "state"@,
            r.lock_file@ == "rookeeper.lock"@,
            r.max_wal_segment_bytes == 64 * 1024 * 1024,
            r.snapshot_interval_commands == 10_000,
    {
        StorageConfig {
            root_dir: owned("./data"),
            wal_dir: owned("wal"),
            snapshot_dir: owned("snapshot"),
            state_dir: owned("state"),
            lock_file: owned("rookeeper.lock"),
            max_wal_segment_bytes: 64 * 1024 * 1024,
            snapshot_interval_commands: 10_000,
        }
    }
}

/// Authentication settings.
#[derive(Debug, Clone, PartialEq, Eq)]
pub struct AuthConfig {
    pub mode: AuthMode,
    pub token_file: String,
}

impl Default for AuthConfig {
    fn default() -> (r: AuthConfig)
        ensures
            r.mode == AuthMode::Disabled,
            r.token_file@ == "./config/tokens.toml"@,
    {
        AuthConfig { mode: AuthMode::Disabled, token_file: owned("./config/tokens.toml") }
    }
}

/// Logging and metrics settings.
#[derive(Debug, Clone, PartialEq, Eq)]
pub struct ObservabilityConfig {
    pub log_format: LogFormat,
    pub log_level: String,
    pub metrics_bind: String,
    pub enable_metrics: bool,
}

impl Default for ObservabilityConfig {
    fn default() -> (r: ObservabilityConfig)
        ensures
            r.log_format == LogFormat::Json,
            r.log_level@ == "info"@,
            r.metrics_bind@ == "127.0.0.1:9642"@,
            r.enable_metrics,
    {
        ObservabilityConfig {
            log_format: LogFormat::Json,
            log_level: owned("info"),
            metrics_bind: owned("127.0.0.1:9642"),
            enable_metrics: true,
        }
    }
}

/// Behaviour switches kept for compatibility.
#[derive(Debug, Clone, Copy, PartialEq, Eq, Structural)]
pub struct CompatibilityConfig {
    pub normalize_paths: bool,
    pub allow_backslash_paths: bool,
}

impl Default for CompatibilityConfig {
    fn default() -> (r: CompatibilityConfig)
        ensures
            r.normalize_paths,
            r.allow_backslash_paths,
    {
        CompatibilityConfig { normalize_paths: true, allow_backslash_paths: true }
    }
}

/// The complete configuration.
#[derive(Debug, Clone, PartialEq, Eq)]
pub struct ServiceConfig {
    pub server: ServerConfig,
    pub storage: StorageConfig,
    pub auth: AuthConfig,
    pub observability: ObservabilityConfig,
    pub compatibility: CompatibilityConfig,
}

impl Default for ServiceConfig {
    fn default() -> (r: ServiceConfig)
        ensures
            r.server.node_name@ == "local-node"@,
            r.server.primary_transport == TransportMode::Auto,
            r.server.fallback_transport == TransportMode::LocalTcp,
            r.server.request_queue_depth == 1024,
            r.server.session_timeout_ms == 30_000,
            r.storage.root_dir@ == "./data"@,
            r.storage.wal_dir@ == "wal"@,
            r.storage.snapshot_dir@ == "snapshot"@,
            r.storage.state_dir@ == "state"@,
            r.storage.lock_file@ == "rookeeper.lock"@,
            r.storage.max_wal_segment_bytes == 64 * 1024 * 1024,
            r.storage.snapshot_interval_commands == 10_000,
            r.auth.mode == AuthMode::Disabled,
            r.auth.token_file@ == "./config/tokens.toml"@,
            r.observability.log_format == LogFormat::Json,
            r.observability.log_level@ == "info"@,
            r.observability.metrics_bind@ == "127.0.0.1:9642"@,
            r.observability.enable_metrics,
            r.compatibility.normalize_paths,
            r.compatibility.allow_backslash_paths,
    {
        ServiceConfig {
            server: ServerConfig::default(),
            storage: StorageConfig::default(),
            auth: AuthConfig::default(),
            observability: ObservabilityConfig::default(),
            compatibility: CompatibilityConfig::default(),
        }
    }
}

} // verus!
