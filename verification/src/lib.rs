//! A relay for length-prefixed JSON messages between one local byte stream and
//! any number of remote byte streams.
//!
//! The library holds every decision of the relay: how a frame is laid out and
//! read back, which payloads are messages, where a message goes, when an
//! endpoint leaves the routing table, and how often a connection is tried.
//! Reading and writing the streams is left to the caller, which hands the
//! library bytes and events and carries out the actions it gets back.

pub mod byte_order;
pub mod frame;
pub mod json;
pub mod message;
pub mod codec;
pub mod port;
pub mod endpoint;
pub mod retry;
pub mod router;
pub mod relay;
pub mod exchange;
pub mod trace;
pub mod log;
