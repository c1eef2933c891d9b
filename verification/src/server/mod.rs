//! The configurator's HTTP server: request framing, routing and responses,
//! and the set-up of the network it serves on.
use vstd::prelude::*;

use crate::network::{Config, Credentials, NetworkKind};

pub mod configurator;
pub mod http;
pub mod respond;
pub mod router;

verus! {

/// What starting the network hardware takes, and what setting up the
/// network stack needs afterwards.
#[derive(Debug)]
pub struct NetworkStart {
    /// Credentials of the home network, if there is one.
    pub home: Option<Credentials>,
    /// Credentials of the field network.
    pub field: Credentials,
    /// The hostname to announce on the home network.
    pub hostname: String,
    /// The address of the device on the field network.
    pub address: [u8; 4],
}

/// Splits the network settings into what starting the hardware takes: the
/// home credentials (and hostname, empty without a home network) and the
/// field credentials and address.
pub fn network_start(config: Config) -> (r: NetworkStart)
    ensures
        match config.home {
            Some(h) => r.home == Some(h.credentials) && r.hostname == h.hostname,
            None => r.home is None && r.hostname@.len() == 0,
        },
        r.field == config.field.credentials,
        r.address == config.field.address,
{
    let Config { home, field } = config;
    let (home, hostname) = match home {
        Some(h) => (Some(h.credentials), h.hostname),
        None => (None, String::new()),
    };
    NetworkStart { home, field: field.credentials, hostname, address: field.address }
}

/// How the network stack gets its address.
#[derive(Debug)]
pub enum StackConfig {
    /// From a DHCP server, announcing `hostname`.
    Dhcp { hostname: String },
    /// A fixed address, with a network prefix of `prefix_len` bits and a
    /// gateway.
    Static { address: [u8; 4], prefix_len: u8, gateway: [u8; 4] },
}

/// The stack configuration for the network that was joined, and the address
/// a DHCP server must be run for: on the home network the device asks for
/// an address; on the field network it takes `address` in a /24, is its own
/// gateway and serves DHCP there.
pub fn stack_config(network: NetworkKind, hostname: String, address: [u8; 4]) -> (r: (StackConfig, Option<[u8; 4]>))
    ensures
        match network {
            NetworkKind::Home => r.1 is None && (r.0 matches StackConfig::Dhcp { hostname: h } && h == hostname),
            NetworkKind::Field => r.1 == Some(address) && r.0 == (StackConfig::Static {
                address,
                prefix_len: 24,
                gateway: address,
            }),
        },
{
    match network {
        NetworkKind::Home => (StackConfig::Dhcp { hostname }, None),
        NetworkKind::Field => (StackConfig::Static { address, prefix_len: 24, gateway: address }, Some(address)),
    }
}

/// The unspecified address `0.0.0.0`.
pub open spec fn is_unspecified(a: [u8; 4]) -> bool {
    a[0] == 0 && a[1] == 0 && a[2] == 0 && a[3] == 0
}

/// Where a DHCP reply goes: to the broadcast address (on the client's port)
/// when the client asked for broadcast or has no address yet, otherwise to
/// the client.
pub fn dhcp_reply_target(broadcast: bool, remote: [u8; 4], port: u16) -> (r: ([u8; 4], u16))
    ensures
        r == if broadcast || is_unspecified(remote) {
            ([255u8, 255, 255, 255], port)
        } else {
            (remote, port)
        },
{
    let unspecified = remote[0] == 0 && remote[1] == 0 && remote[2] == 0 && remote[3] == 0;
    if broadcast || unspecified {
        ([255, 255, 255, 255], port)
    } else {
        (remote, port)
    }
}

} // verus!
