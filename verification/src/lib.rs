//! Aggregation of observed network flows into a model of who talked to whom,
//! on which port and protocol.
//!
//! Flow records come from two sides: datagrams of flow exporters, decoded by
//! a decoder kept per peer, and capture files taken from a directory. Either
//! way the records of one decode pass are gathered in a store of their own,
//! which is then merged into the shared store in one step.

pub mod address;
pub mod capture;
pub mod clock;
pub mod communication;
pub mod connection;
pub mod decoder;
pub mod entries;
pub mod flow;
pub mod laws;
pub mod listener;
pub mod model;
pub mod store;

pub use address::{Address, Protocol, Timestamp};
pub use communication::{Communication, Destination};
pub use connection::{Connection, ConnectionSet};
pub use decoder::DecoderCache;
pub use flow::FlowRecord;
pub use listener::{Action, Event, PcapListener, Phase};
pub use store::{Communications, Source};
