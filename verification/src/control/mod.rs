//! Control plane: heartbeats, the node protocol and the event relay.

pub mod heartbeat;
pub mod kv_relay;
pub mod protocol;
