//! Inter-task messages.
//!
//! Agent sessions and service listeners never touch the broker's state
//! directly: they send it these messages over bounded channels, and
//! streams move through them by ownership transfer. Streams and channels
//! themselves are opaque to the logic, so they travel as plain handles
//! owned by the I/O layer.

use vstd::prelude::*;

verus! {

/// What an agent session reports to the broker.
#[derive(Debug)]
pub enum AgentMsg {
    /// The session completed the `NEW_AGENT` handshake: register its agent
    /// under the group, with the session's inbound channel for orders.
    NewAgent { agent_id: String, group_name: String, remote_address: String, channel: u64 },
    /// The session's stream opened with `CONNECT`: it is the data half of
    /// the pending connection named by the identifier, handed over whole.
    Connect { agent_id: String, connection_id: String, remote_address: String, stream: u64 },
    /// The agent could not reach the destination: drop the pending
    /// connection.
    CancelConnection { connection_id: String },
    /// The session ended: unregister its agent everywhere.
    Deregister { agent_id: String },
}

/// What a service listener reports to the broker.
#[derive(Debug)]
pub enum ServiceMsg {
    /// The listener is up: here is its inbound channel, for shutdown.
    NewService { service_name: String, channel: u64 },
    /// The listener ended: forget it.
    Deregister { service_name: String },
    /// A client connected to the service: its stream, handed over whole.
    Connect { service_name: String, stream: u64, remote_address: String },
}

} // verus!
