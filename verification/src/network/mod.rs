//! Network settings shared by the handset and its backpack.
use vstd::prelude::*;

pub mod api;

verus! {

/// Which network a device joined.
#[derive(Debug, Clone, Copy, PartialEq, Eq, Structural)]
pub enum NetworkKind {
    Home,
    Field,
}

/// Credentials of a wireless network: an SSID of at most 32 bytes and a
/// password of at most 64 bytes.
#[derive(Debug)]
pub struct Credentials {
    pub ssid: String,
    pub password: String,
}

/// Settings for joining the home network; the hostname has at most 32 bytes.
#[derive(Debug)]
pub struct HomeConfig {
    pub credentials: Credentials,
    pub hostname: String,
}

/// Settings for the field network the device opens itself, at the IPv4
/// address `address`.
#[derive(Debug)]
pub struct FieldConfig {
    pub credentials: Credentials,
    pub address: [u8; 4],
}

/// Network settings: an optional home network and the field network.
#[derive(Debug)]
pub struct Config {
    pub home: Option<HomeConfig>,
    pub field: FieldConfig,
}

/// How trying to join the home network ended.
#[derive(Debug, Clone, Copy, PartialEq, Eq, Structural)]
pub enum JoinOutcome {
    Connected,
    TimedOut,
    Disconnected,
    Failed,
}

/// The network the device ends up on: home when it joined the home network,
/// otherwise the field network it opens itself.
pub fn network_kind(home: JoinOutcome) -> (r: NetworkKind)
    ensures
        r == if home == JoinOutcome::Connected {
            NetworkKind::Home
        } else {
            NetworkKind::Field
        },
{
    match home {
        JoinOutcome::Connected => NetworkKind::Home,
        _ => NetworkKind::Field,
    }
}

/// The access point opened for the field network.
#[derive(Debug)]
pub struct AccessPoint {
    pub ssid: String,
    pub hidden: bool,
    pub channel: u8,
}

/// The field network's access point: visible, on channel 1, named by the
/// field credentials' SSID and open (the password is not used).
pub fn field_access_point(field: Credentials) -> (r: AccessPoint)
    ensures
        r.ssid == field.ssid,
        !r.hidden,
        r.channel == 1,
{
    AccessPoint { ssid: field.ssid, hidden: false, channel: 1 }
}

} // verus!
