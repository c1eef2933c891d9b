//! Messages between the handset and its backpack, and between the
//! simulator's processes; and the decisions the backpack takes on them.
use vstd::prelude::*;

use crate::network::Config;

verus! {

/// Baud rate of the serial link to the backpack.
pub const BAUDRATE: u32 = 115_200;

/// The bytes that open the serial link: `VerTX` and a zero byte.
pub const INIT: [u8; 6] = [0x56, 0x65, 0x72, 0x54, 0x58, 0x00];

/// A message to the backpack.
#[derive(Debug)]
pub enum ToBackpack {
    SetBootMode(u8),
    StartNetwork(Config),
    ApiResponse(Vec<u8>),
    ShutDown,
    Reboot,
}

/// A message from the backpack.
#[derive(Debug)]
pub enum ToMain {
    NetworkUp,
    ApiRequest(Vec<u8>),
    PowerAck,
}

/// Whether a byte can open the serial link.
pub fn starts_init(byte: u8) -> (r: bool)
    ensures
        r == (byte == INIT[0]),
{
    byte == INIT[0]
}

/// Whether `len` bytes of `rest`, read after the first byte, complete the
/// opening of the serial link.
pub fn completes_init(rest: &[u8; 5], len: usize) -> (r: bool)
    ensures
        r == (len == 5 && rest@ == INIT@.subrange(1, 6)),
{
    if len != 5 {
        return false;
    }
    let mut i: usize = 0;
    while i < 5
        invariant
            i <= 5,
            forall|j: int| 0 <= j < i ==> rest@[j] == INIT@[j + 1],
        decreases 5 - i,
    {
        if rest[i] != INIT[i + 1] {
            return false;
        }
        i = i + 1;
    }
    assert(rest@ =~= INIT@.subrange(1, 6));
    true
}

/// Whether the link must be flushed after sending `message`: after the
/// acknowledgement of a power request, which the handset waits for.
pub fn needs_flush(message: &ToMain) -> (r: bool)
    ensures
        r == (message is PowerAck),
{
    match message {
        ToMain::PowerAck => true,
        _ => false,
    }
}

/// What the backpack does with a message from the handset.
#[derive(Debug)]
pub enum BackpackAction {
    /// Remember the boot mode.
    SetBootMode(u8),
    /// Start the network with these settings.
    StartNetwork(Config),
    /// Nothing: the network was started before.
    NetworkAlreadyStarted,
    /// Pass an API response on to the client.
    ApiResponse(Vec<u8>),
    /// Acknowledge, then shut down.
    ShutDown,
    /// Acknowledge, wait for the link to be flushed, then reset.
    Reboot,
}

/// Whether `message` starts the network, given whether it was started
/// before.
pub open spec fn starts_network(started: bool, message: ToBackpack) -> bool {
    message is StartNetwork && !started
}

/// Whether the network has been started once `message` is handled.
pub open spec fn started_after(started: bool, message: ToBackpack) -> bool {
    started || message is StartNetwork
}

/// However the messages come, the network is started at most once: after a
/// message that starts it, no later message starts it again.
pub proof fn lemma_network_starts_once(started: bool, first: ToBackpack, later: ToBackpack)
    requires
        starts_network(started, first),
    ensures
        !starts_network(started_after(started, first), later),
        started_after(started_after(started, first), later),
{
}

/// What the backpack does with `message`, given whether the network was
/// started before; the network is started at most once.
pub fn backpack_action(network_started: &mut bool, message: ToBackpack) -> (r: BackpackAction)
    ensures
        *final(network_started) == started_after(*old(network_started), message),
        r is StartNetwork <==> starts_network(*old(network_started), message),
        match message {
            ToBackpack::SetBootMode(m) => (r matches BackpackAction::SetBootMode(x) && x == m)
                && *final(network_started) == *old(network_started),
            ToBackpack::StartNetwork(c) => *final(network_started) && (if *old(network_started) {
                r is NetworkAlreadyStarted
            } else {
                r matches BackpackAction::StartNetwork(x) && x == c
            }),
            ToBackpack::ApiResponse(v) => (r matches BackpackAction::ApiResponse(x) && x == v)
                && *final(network_started) == *old(network_started),
            ToBackpack::ShutDown => r is ShutDown && *final(network_started) == *old(network_started),
            ToBackpack::Reboot => r is Reboot && *final(network_started) == *old(network_started),
        },
{
    match message {
        ToBackpack::SetBootMode(m) => BackpackAction::SetBootMode(m),
        ToBackpack::StartNetwork(c) => {
            if *network_started {
                BackpackAction::NetworkAlreadyStarted
            } else {
                *network_started = true;
                BackpackAction::StartNetwork(c)
            }
        },
        ToBackpack::ApiResponse(v) => BackpackAction::ApiResponse(v),
        ToBackpack::ShutDown => BackpackAction::ShutDown,
        ToBackpack::Reboot => BackpackAction::Reboot,
    }
}

/// Exit status of the simulated handset when it shuts down.
pub const EXIT_SHUT_DOWN: i32 = 10;

/// Exit status of the simulated handset when it reboots.
pub const EXIT_REBOOT: i32 = 11;

/// A message between the simulator's processes: raw bytes of the backpack
/// link, or a message of the simulator itself.
#[derive(Debug)]
pub enum Message<T> {
    Backpack(Vec<u8>),
    Simulator(T),
}

/// A message to the simulated handset.
#[derive(Debug, Clone, Copy, PartialEq, Eq, Structural)]
pub enum ToVertx {
    BackpackAck,
    ModeButtonPressed,
}

/// A message to the simulator's manager.
#[derive(Debug, Clone, Copy, PartialEq, Eq, Structural)]
pub enum ToManager {
    SetBootMode(u8),
    StatusLed { r: u8, g: u8, b: u8 },
}

impl From<ToVertx> for Message<ToVertx> {
    fn from(value: ToVertx) -> (r: Self) {
        Message::Simulator(value)
    }
}

impl vstd::std_specs::convert::FromSpecImpl<ToVertx> for Message<ToVertx> {
    open spec fn obeys_from_spec() -> bool {
        true
    }

    open spec fn from_spec(value: ToVertx) -> Self {
        Message::Simulator(value)
    }
}

impl From<ToManager> for Message<ToManager> {
    fn from(value: ToManager) -> (r: Self) {
        Message::Simulator(value)
    }
}

impl vstd::std_specs::convert::FromSpecImpl<ToManager> for Message<ToManager> {
    open spec fn obeys_from_spec() -> bool {
        true
    }

    open spec fn from_spec(value: ToManager) -> Self {
        Message::Simulator(value)
    }
}

/// What the simulated backpack does with a message from the handset.
#[derive(Debug)]
pub enum SimulatorAction {
    /// Start serving the network.
    StartNetwork,
    /// Nothing: the network was started before.
    NetworkAlreadyStarted,
    /// Pass an API response on to the client.
    ApiResponse(Vec<u8>),
    /// Acknowledge a power request.
    PowerAck,
}

/// What the simulated backpack does with `message`, given whether its
/// network was started before. It has no boot modes.
pub fn simulator_action(network_started: &mut bool, message: ToBackpack) -> (r: SimulatorAction)
    requires
        !(message is SetBootMode),
    ensures
        *final(network_started) == started_after(*old(network_started), message),
        r is StartNetwork <==> starts_network(*old(network_started), message),
        match message {
            ToBackpack::StartNetwork(_) => *final(network_started) && (if *old(network_started) {
                r is NetworkAlreadyStarted
            } else {
                r is StartNetwork
            }),
            ToBackpack::ApiResponse(v) => (r matches SimulatorAction::ApiResponse(x) && x == v)
                && *final(network_started) == *old(network_started),
            _ => r is PowerAck && *final(network_started) == *old(network_started),
        },
{
    match message {
        ToBackpack::SetBootMode(_) => {
            proof {
                assert(false);
            }
            SimulatorAction::PowerAck
        },
        ToBackpack::StartNetwork(_) => {
            if *network_started {
                SimulatorAction::NetworkAlreadyStarted
            } else {
                *network_started = true;
                SimulatorAction::StartNetwork
            }
        },
        ToBackpack::ApiResponse(v) => SimulatorAction::ApiResponse(v),
        ToBackpack::ShutDown | ToBackpack::Reboot => SimulatorAction::PowerAck,
    }
}

} // verus!
