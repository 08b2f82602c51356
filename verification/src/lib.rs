//! Core of a reverse-tunnel TCP relay.
//!
//! A server exposes services that live inside a private network. Agents near
//! those services dial the server, authenticate with a pre-shared key, and
//! wait for connection orders. For every client connection the server picks
//! an agent of the service's group round-robin, issues a `CONNECT` order
//! carrying a fresh connection identifier, matches the data stream the agent
//! opens back under that identifier, and splices the two streams together.
//!
//! This crate holds the verified logic of both halves: the line framing, the
//! control-protocol codec, the agent control loop, the server's per-agent
//! session, the broker that owns all server state, and the splice. The I/O
//! runtime that feeds these state machines with events lives outside.

pub mod agent;
pub mod broker;
pub mod configs;
pub mod framing;
pub mod ids;
pub mod messages;
pub mod protocol;
pub mod session;
pub mod splice;
