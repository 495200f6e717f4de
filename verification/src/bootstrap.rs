//! Server bootstrap: the endpoint and storage layout a server derives from
//! its configuration.
use vstd::prelude::*;

use crate::client::{bootstrap_endpoint, endpoint_for_mode};
use crate::config::TransportMode;
use crate::platform::{endpoint_for, transport_for};
use crate::config::ServiceConfig;
use crate::layout::{StorageLayout, laid_out_under};
use crate::platform::OperatingSystem;
use crate::text::{owned, push_str_chars};

verus! {

/// What a server needs before it starts.
#[derive(Debug, Clone)]
pub struct ServerBootstrap {
    pub config: ServiceConfig,
    pub storage_layout: StorageLayout,
    pub endpoint: String,
}

/// The one-line summary of a bootstrap.
pub open spec fn summary_text(node: Seq<char>, endpoint: Seq<char>, root: Seq<char>) -> Seq<char> {
    "node="@ + node + " endpoint="@ + endpoint + " data_root="@ + root
}

/// The endpoint a server listens on: the platform default of the
/// `rookeeper` service for `Auto`, the fixed address of each other mode.
pub open spec fn listen_endpoint(config: ServiceConfig, os: OperatingSystem) -> Seq<char> {
    match config.server.primary_transport {
        TransportMode::Auto => endpoint_for(transport_for(os), "rookeeper"@),
        TransportMode::UnixDomainSocket => "unix:///tmp/rookeeper.sock"@,
        TransportMode::NamedPipe => "pipe://./pipe/rookeeper"@,
        TransportMode::LocalTcp => "tcp://127.0.0.1:9641/rookeeper"@,
    }
}

/// A server and a client bootstrapped from the same configuration on the
/// same system meet at one endpoint, whatever the transport mode.
pub proof fn lemma_server_and_client_endpoints_agree(config: ServiceConfig, os: OperatingSystem)
    ensures
        listen_endpoint(config, os) == bootstrap_endpoint(config.server.primary_transport, os),
{
}

impl ServerBootstrap {
    /// Derives the endpoint (the same choice a client makes) and the
    /// storage layout under the configured data root.
    pub fn from_config(config: ServiceConfig, os: OperatingSystem) -> (r: ServerBootstrap)
        ensures
            r.config == config,
            r.endpoint@ == listen_endpoint(config, os),
            laid_out_under(r.storage_layout, config.storage.root_dir@),
    {
        let endpoint = endpoint_for_mode(config.server.primary_transport, os);
        let storage_layout = StorageLayout::from_root(config.storage.root_dir.as_str());
        proof {
            lemma_server_and_client_endpoints_agree(config, os);
        }
        ServerBootstrap { config, storage_layout, endpoint }
    }

    /// A summary for logs: node name, endpoint and data root.
    pub fn summary(&self) -> (r: String)
        ensures
            r@ == summary_text(self.config.server.node_name@, self.endpoint@, self.storage_layout.root@),
    {
        let mut s = owned("node=");
        push_str_chars(&mut s, self.config.server.node_name.as_str());
        push_str_chars(&mut s, " endpoint=");
        push_str_chars(&mut s, self.endpoint.as_str());
        push_str_chars(&mut s, " data_root=");
        push_str_chars(&mut s, self.storage_layout.root.as_str());
        s
    }
}

} // verus!
