//! Verified core logic of the VerTX handset firmware: the CRSF link protocol,
//! the block filesystem, configuration storage, the target description
//! parser, the configurator's HTTP server and WebSocket API, and the
//! messages between the handset, its backpack and the simulator.
pub mod api;
pub mod config;
pub mod crsf;
pub mod filesystem;
pub mod ipc;
pub mod network;
pub mod server;
pub mod simulator;
pub mod target;
pub mod text;
