//! Rookeeper: a deterministic single-node coordination kernel.
//!
//! The library holds the logic of the coordination service: path
//! normalisation, access control, the tree key/value state machine, the
//! write-ahead log and snapshot encodings, watches, locks, sessions and the
//! service registry. Verus checks each function against its contract; the
//! calls into outside crates stand behind a few small trusted wrappers whose
//! contracts say what those crates do.

pub mod error;
pub mod text;
pub mod acl;
pub mod model;
pub mod platform;
pub mod config;
pub mod codec;
pub mod wire;
pub mod client;
pub mod layout;
pub mod state;
pub mod strmap;
pub mod idmap;
pub mod wal;
pub mod snapshot;
pub mod tree_kv;
pub mod watch;
pub mod session;
pub mod lock;
pub mod registry;
pub mod backpressure;
pub mod bootstrap;
pub mod server;
pub mod recovery;
