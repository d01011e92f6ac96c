//! Verified core of a multi-transport packet router and simulation streamer.
//!
//! The crate holds the decisions of the router as plain state machines: the
//! wire codec of the packet schema, frame detection on byte streams, the
//! connection registry, the cadence of periodic shares, the preparation and
//! the alignment of simulation playback, and the formatting of log records.
//! Doubles are carried as their bits, and the arithmetic that the router
//! needs on them is done on the bits. Every function is stated with a
//! contract and proved against it; I/O, timers and task scheduling are
//! left to the embedding program.

pub mod text;
pub mod varint;
pub mod wire;
pub mod schema;
pub mod ieee;
pub mod messages;
pub mod target;
pub mod convert;
pub mod packet;
pub mod frame;
pub mod resync;
pub mod reader;
pub mod cache;
pub mod transport;
pub mod registry;
pub mod shares;
pub mod manager;
pub mod traffic;
pub mod tasks;
pub mod playback;
pub mod streaming;
pub mod prepare;
pub mod ids;
pub mod logger;
pub mod share;
pub mod timer;
