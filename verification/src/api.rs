//! The handset's WebSocket API: its requests, what each one asks the
//! handset to do, and the answers to configuration updates.
use vstd::prelude::*;

use vstd::string::StringSliceAdditionalSpecFns;

use crate::config::update::{self, Error as UpdateError, Update};
use crate::server::configurator::{offers, strs_bytes};

verus! {

/// The major version of the API protocol.
pub const VERSION_MAJOR: u8 = 0;

/// The minor version of the API protocol.
pub const VERSION_MINOR: u8 = 0;

/// A request from the configurator.
#[derive(Debug, Clone, Copy)]
pub enum Request<'a> {
    ProtocolVersion,
    BuildInfo,
    PowerOff,
    Reboot,
    ExitConfigurator,
    CheckForUpdate,
    GetConfig,
    ConfigUpdate { id: u32, key: &'a str, value: Update<'a> },
}

/// The answer to a configuration update.
#[derive(Debug, Clone, Copy, PartialEq, Eq, Structural)]
pub enum ConfigUpdateResult {
    Success,
    KeyNotFound,
    InvalidType,
    InvalidValue,
    TooSmall { min: i64 },
    TooLarge { max: i64 },
}

/// The answer for the outcome of an update.
pub open spec fn update_result(from: update::Result) -> ConfigUpdateResult {
    match from {
        Ok(()) => ConfigUpdateResult::Success,
        Err(UpdateError::KeyNotFound) => ConfigUpdateResult::KeyNotFound,
        Err(UpdateError::InvalidType) => ConfigUpdateResult::InvalidType,
        Err(UpdateError::InvalidValue) => ConfigUpdateResult::InvalidValue,
        Err(UpdateError::TooSmall { min }) => ConfigUpdateResult::TooSmall { min },
        Err(UpdateError::TooLarge { max }) => ConfigUpdateResult::TooLarge { max },
    }
}

impl From<update::Result> for ConfigUpdateResult {
    fn from(from: update::Result) -> (r: Self) {
        match from {
            Ok(()) => ConfigUpdateResult::Success,
            Err(UpdateError::KeyNotFound) => ConfigUpdateResult::KeyNotFound,
            Err(UpdateError::InvalidType) => ConfigUpdateResult::InvalidType,
            Err(UpdateError::InvalidValue) => ConfigUpdateResult::InvalidValue,
            Err(UpdateError::TooSmall { min }) => ConfigUpdateResult::TooSmall { min },
            Err(UpdateError::TooLarge { max }) => ConfigUpdateResult::TooLarge { max },
        }
    }
}

impl vstd::std_specs::convert::FromSpecImpl<update::Result> for ConfigUpdateResult {
    open spec fn obeys_from_spec() -> bool {
        true
    }

    open spec fn from_spec(from: update::Result) -> Self {
        update_result(from)
    }
}

/// What the handset does for a request.
#[derive(Debug, Clone, Copy)]
pub enum Action<'a> {
    /// Answer with this protocol version.
    ProtocolVersion { major: u8, minor: u8 },
    /// Answer with the build information.
    BuildInfo,
    /// Power off.
    PowerOff,
    /// Reboot.
    Reboot,
    /// Answer with the stored configuration.
    GetConfig,
    /// Apply an update to the configuration and answer with its outcome,
    /// tagged with `id`.
    ConfigUpdate { id: u32, key: &'a str, value: Update<'a> },
}

/// What the handset does for a request. Checking for updates and leaving
/// the configurator have no handling.
pub fn action<'a>(request: Request<'a>) -> (r: Action<'a>)
    requires
        !(request is CheckForUpdate),
        !(request is ExitConfigurator),
    ensures
        request is ProtocolVersion ==> r == (Action::ProtocolVersion { major: VERSION_MAJOR, minor: VERSION_MINOR }),
        request is BuildInfo ==> r == Action::BuildInfo,
        request is PowerOff ==> r == Action::PowerOff,
        request is Reboot ==> r == Action::Reboot,
        request is GetConfig ==> r == Action::GetConfig,
        request is ConfigUpdate ==> r == (Action::ConfigUpdate {
            id: request->id,
            key: request->key,
            value: request->value,
        }),
{
    match request {
        Request::ProtocolVersion => Action::ProtocolVersion { major: VERSION_MAJOR, minor: VERSION_MINOR },
        Request::BuildInfo => Action::BuildInfo,
        Request::PowerOff => Action::PowerOff,
        Request::Reboot => Action::Reboot,
        Request::GetConfig => Action::GetConfig,
        Request::ConfigUpdate { id, key, value } => Action::ConfigUpdate { id, key, value },
        Request::ExitConfigurator | Request::CheckForUpdate => {
            proof {
                assert(false);
            }
            Action::BuildInfo
        },
    }
}

/// The size of the buffer an API session encodes its answers into.
pub const RESPONSE_BUFFER_LEN: usize = 256;

/// An API session with the handset state `S`.
#[derive(Debug)]
pub struct Handler<'a, S> {
    pub response_buffer: [u8; 256],
    pub state: &'a S,
}

impl<'a, S> Handler<'a, S> {
    /// A session with a zeroed answer buffer.
    pub fn new(state: &'a S) -> (r: Self)
        ensures
            r.state == state,
            forall|i: int| 0 <= i < 256 ==> #[trigger] r.response_buffer@[i] == 0,
    {
        Handler { response_buffer: [0u8; 256], state }
    }
}

/// Answers the WebSocket upgrade requests of the API.
#[derive(Debug, Clone, Copy)]
pub struct UpgradeHandler;

impl UpgradeHandler {
    /// Whether the handler answers `path` with an upgrade: only the root,
    /// written empty or as `/`; other paths are answered `404 Not Found`.
    pub fn serves(&self, path: &str) -> (r: bool)
        ensures
            r == (path.spec_bytes().len() == 0 || path.spec_bytes() == "/".spec_bytes()),
    {
        crate::server::configurator::UpgradeHandler.serves(path)
    }

    /// Whether the client offers the API's sub-protocol `v0`; otherwise it
    /// is answered `400 Bad Request`.
    pub fn accepts(&self, protocols: Option<&[&str]>) -> (r: bool)
        ensures
            r == offers(
                match protocols {
                    Some(p) => Some(strs_bytes(p@)),
                    None => None,
                },
                "v0".spec_bytes(),
            ),
    {
        crate::server::configurator::UpgradeHandler.accepts(protocols, "v0")
    }
}

} // verus!
