//! Platform abstraction: operating system detection and the default IPC
//! transport and endpoint for each system.
use vstd::prelude::*;

use crate::text::{owned, push_str_chars, str_equal};

verus! {

/// Operating system families the service distinguishes.
#[derive(Debug, Clone, Copy, PartialEq, Eq, Structural)]
pub enum OperatingSystem {
    Windows,
    Linux,
    Other,
}

/// Local IPC transports.
#[derive(Debug, Clone, Copy, PartialEq, Eq, Structural)]
pub enum IpcTransport {
    UnixDomainSocket,
    NamedPipe,
    LocalTcp,
}

/// The operating system named by a build-target name such as `linux`.
pub open spec fn os_of_target(target_os: Seq<char>) -> OperatingSystem {
    if target_os == "windows"@ {
        OperatingSystem::Windows
    } else if target_os == "linux"@ {
        OperatingSystem::Linux
    } else {
        OperatingSystem::Other
    }
}

/// The operating system the service was built for, from the target's
/// operating-system name (`windows`, `linux`, ...).
pub fn current_os(target_os: &str) -> (r: OperatingSystem)
    ensures
        r == os_of_target(target_os@),
{
    if str_equal(target_os, "windows") {
        OperatingSystem::Windows
    } else if str_equal(target_os, "linux") {
        OperatingSystem::Linux
    } else {
        OperatingSystem::Other
    }
}

/// The preferred transport on each system.
pub open spec fn transport_for(os: OperatingSystem) -> IpcTransport {
    match os {
        OperatingSystem::Windows => IpcTransport::NamedPipe,
        OperatingSystem::Linux => IpcTransport::UnixDomainSocket,
        OperatingSystem::Other => IpcTransport::LocalTcp,
    }
}

/// Unix sockets on Linux, named pipes on Windows, loopback TCP elsewhere.
pub fn default_ipc_transport(os: OperatingSystem) -> (r: IpcTransport)
    ensures
        r == transport_for(os),
{
    match os {
        OperatingSystem::Windows => IpcTransport::NamedPipe,
        OperatingSystem::Linux => IpcTransport::UnixDomainSocket,
        OperatingSystem::Other => IpcTransport::LocalTcp,
    }
}

/// The endpoint address of a service over a transport.
pub open spec fn endpoint_for(transport: IpcTransport, service_name: Seq<char>) -> Seq<char> {
    match transport {
        IpcTransport::UnixDomainSocket => "unix:///tmp/"@ + service_name + ".sock"@,
        IpcTransport::NamedPipe => "pipe://./pipe/"@ + service_name,
        IpcTransport::LocalTcp => "tcp://127.0.0.1:9641/"@ + service_name,
    }
}

/// The default endpoint of a service on the given system.
pub fn default_endpoint(service_name: &str, os: OperatingSystem) -> (r: String)
    ensures
        r@ == endpoint_for(transport_for(os), service_name@),
{
    match default_ipc_transport(os) {
        IpcTransport::UnixDomainSocket => {
            let mut s = owned("unix:///tmp/");
            push_str_chars(&mut s, service_name);
            push_str_chars(&mut s, ".sock");
            s
        },
        IpcTransport::NamedPipe => {
            let mut s = owned("pipe://./pipe/");
            push_str_chars(&mut s, service_name);
            s
        },
        IpcTransport::LocalTcp => {
            let mut s = owned("tcp://127.0.0.1:9641/");
            push_str_chars(&mut s, service_name);
            s
        },
    }
}

/// The system service name, `rookeeper`.
pub fn system_service_name() -> (r: &'static str)
    ensures
        r@ == "rookeeper"@,
{
    "rookeeper"
}

} // verus!
