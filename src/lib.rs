//! A PBFT consensus core: the message model, a message log that certifies
//! quorums, the node state machine with its view-change sub-protocol, and the
//! time-gated tickers that drive it.

pub mod codec;
pub mod engine;
pub mod error;
pub mod log;
pub mod message;
pub mod node;
pub mod peers;
pub mod timing;
