//! Ethereum RLP serialization onto an `rlp` stream, and the decisions of the
//! runloop agents that drive networking components.

pub mod encoding;
pub mod ser;
pub mod agent;
pub mod keys;
