//! Listening TCP ports: the raw listener model and its normalization into rows.
pub mod addr;
pub mod normalize;

use vstd::prelude::*;
use vstd::string::*;

pub use addr::{IpAddress, SocketAddress};
pub use self::normalize::normalize;


verus! {

/// The transport protocol of a listener.
#[derive(Clone, Copy, Debug, PartialEq, Eq, Structural)]
pub enum Protocol {
    Tcp,
}

/// The process that owns a listening socket.
#[derive(Clone, Debug, PartialEq, Eq)]
pub struct ListenerProcess {
    pub pid: u32,
    pub name: String,
    pub path: String,
}

/// One listening socket as a port scan reports it.
#[derive(Clone, Debug, PartialEq, Eq)]
pub struct PortListener {
    pub protocol: Protocol,
    pub socket: SocketAddress,
    pub process: ListenerProcess,
}

/// Which interfaces a row's sockets are bound to.
#[derive(Clone, Copy, Debug, PartialEq, Eq, Structural)]
pub enum BindScope {
    AllInterfaces,
    Loopback,
    Specific,
}

/// The address family of a socket.
#[derive(Clone, Copy, Debug, PartialEq, Eq, PartialOrd, Ord, Structural)]
pub enum AddressFamily {
    V4,
    V6,
}

/// A process that listens on a row's port.
#[derive(Clone, Debug, PartialEq, Eq)]
pub struct PortOwner {
    pub pid: u32,
    pub name: String,
    pub path: String,
}

/// One displayed port: all sockets on the same port and bind scope.
#[derive(Clone, Debug, PartialEq, Eq)]
pub struct PortRow {
    pub protocol: Protocol,
    pub port: u16,
    pub scope: BindScope,
    pub specific_addr: Option<String>,
    pub families: Vec<AddressFamily>,
    pub owners: Vec<PortOwner>,
    pub key: String,
}

/// A failed port scan.
#[derive(Debug)]
pub enum PortProbeError {
    Scan(String),
}

impl PortProbeError {
    /// The error's message.
    pub fn message(&self) -> (text: String)
        ensures
            text@ == (match self {
                PortProbeError::Scan(detail) => "failed to scan listening ports: "@ + detail@,
            }),
    {
        match self {
            PortProbeError::Scan(detail) => {
                let mut text = String::from_str("failed to scan listening ports: ");
                text.append(detail.as_str());
                text
            },
        }
    }
}

} // verus!
