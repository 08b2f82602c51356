//! Agent control loop.
//!
//! One agent process dials the server, opens with the pre-shared key and
//! `NEW_AGENT`, and then follows orders: every `CONNECT` names an internal
//! destination and a connection identifier, and the agent answers it with
//! a fresh data stream back to the server bearing that identifier — or
//! with a cancellation when the destination cannot be reached. The loop is
//! a state machine over received lines and timer ticks; dialing, reading
//! and writing are I/O around it.

use vstd::prelude::*;
use crate::protocol::{
    Verb, spec_verb_of, verb_of, frameln, spec_handshake, handshake_message, spec_connect_opener,
    connect_opener, spec_cancel_message, cancel_message,
};
use vstd::string::*;

verus! {

/// Where the control loop stands after its handshake.
#[derive(Debug)]
pub enum AgentPhase {
    /// A verb line is next.
    AwaitVerb,
    /// A `CONNECT` was read; its destination address is next.
    AwaitDest,
    /// The destination was read; the connection identifier is next.
    AwaitId { dest_address: String },
    /// The stream ended; the loop must reconnect before going on.
    Stopped,
}

/// What drives the control loop forward.
#[derive(Debug)]
pub enum AgentEvent {
    /// One line was read from the control stream, terminator stripped.
    Line { text: String },
    /// The control stream reported end of file or an error.
    Closed,
    /// The keep-alive timer fired.
    Tick,
}

/// What the control loop asks its surroundings to do.
#[derive(Debug)]
pub enum AgentAction {
    /// Write this text to the control stream as it stands.
    WriteText { text: String },
    /// Dial the destination and answer the order on a fresh stream: with
    /// the data-stream opening on success, with a cancellation otherwise.
    OpenTunnel { dest_address: String, connection_id: String },
}

/// One agent's control loop.
#[derive(Debug)]
pub struct AgentCtl {
    /// The group this agent serves; empty means every group.
    pub group_name: String,
    /// The server's agent control endpoint.
    pub server_endpoint: String,
    /// The key every stream to the server opens with.
    pub pre_shared_key: String,
    /// Where the loop stands.
    pub phase: AgentPhase,
}

/// The fields a step never touches.
pub open spec fn spec_same_agent_config(pre: AgentCtl, post: AgentCtl) -> bool {
    &&& post.group_name@ == pre.group_name@
    &&& post.server_endpoint@ == pre.server_endpoint@
    &&& post.pre_shared_key@ == pre.pre_shared_key@
}

/// What one received line does to the control loop: `OK` and `KEEP_ALIVE`
/// are no-ops, a `CONNECT` gathers its two argument lines and opens a
/// tunnel, anything else is ignored.
pub open spec fn spec_agent_line(
    pre: AgentCtl,
    line: Seq<char>,
    post: AgentCtl,
    acts: Seq<AgentAction>,
) -> bool {
    match pre.phase {
        AgentPhase::AwaitVerb => {
            if spec_verb_of(line) == Verb::Connect {
                &&& post.phase is AwaitDest
                &&& acts.len() == 0
            } else {
                &&& post.phase is AwaitVerb
                &&& acts.len() == 0
            }
        },
        AgentPhase::AwaitDest => {
            &&& post.phase matches AgentPhase::AwaitId { dest_address } && dest_address@ == line
            &&& acts.len() == 0
        },
        AgentPhase::AwaitId { dest_address } => {
            &&& post.phase is AwaitVerb
            &&& acts.len() == 1
            &&& acts[0] matches AgentAction::OpenTunnel {
                dest_address: d,
                connection_id,
            } && d@ == dest_address@ && connection_id@ == line
        },
        AgentPhase::Stopped => {
            &&& post.phase is Stopped
            &&& acts.len() == 0
        },
    }
}

/// What one event does to the control loop.
pub open spec fn spec_agent_step(
    pre: AgentCtl,
    event: AgentEvent,
    post: AgentCtl,
    acts: Seq<AgentAction>,
) -> bool {
    &&& spec_same_agent_config(pre, post)
    &&& match event {
        AgentEvent::Line { text } => spec_agent_line(pre, text@, post, acts),
        AgentEvent::Closed => {
            &&& post.phase is Stopped
            &&& acts.len() == 0
        },
        AgentEvent::Tick => {
            &&& post.phase == pre.phase
            &&& if pre.phase is Stopped {
                acts.len() == 0
            } else {
                acts.len() == 1 && (acts[0] matches AgentAction::WriteText { text } && text@
                    == frameln("KEEP_ALIVE"@))
            }
        },
    }
}

impl AgentCtl {
    /// A fresh control loop, ready for its first connection attempt.
    pub fn new(group_name: String, server_endpoint: String, pre_shared_key: String) -> (a:
        AgentCtl)
        ensures
            a.group_name == group_name,
            a.server_endpoint == server_endpoint,
            a.pre_shared_key == pre_shared_key,
            a.phase is AwaitVerb,
    {
        AgentCtl { group_name, server_endpoint, pre_shared_key, phase: AgentPhase::AwaitVerb }
    }

    /// Starts over on a fresh control stream after a reconnect.
    pub fn reset(&mut self)
        ensures
            spec_same_agent_config(*old(self), *final(self)),
            final(self).phase is AwaitVerb,
    {
        self.phase = AgentPhase::AwaitVerb;
    }

    /// Whether the loop lost its stream and must reconnect.
    pub fn is_stopped(&self) -> (r: bool)
        ensures
            r == (self.phase is Stopped),
    {
        match self.phase {
            AgentPhase::Stopped => true,
            _ => false,
        }
    }

    /// The opening this agent sends on a fresh control stream.
    pub fn handshake(&self) -> (r: String)
        ensures
            r@ == spec_handshake(self.pre_shared_key@, self.group_name@),
    {
        handshake_message(&self.pre_shared_key, &self.group_name)
    }

    /// Whether the server accepted the handshake: only `OK` does.
    pub fn handshake_accepted(reply: &String) -> (r: bool)
        ensures
            r == (reply@ == "OK"@),
    {
        *reply == String::from_str("OK")
    }

    /// The opening this agent sends on the data stream answering an order.
    pub fn tunnel_opener(&self, connection_id: &String) -> (r: String)
        ensures
            r@ == spec_connect_opener(self.pre_shared_key@, connection_id@),
    {
        connect_opener(&self.pre_shared_key, connection_id)
    }

    /// What this agent sends on a fresh stream when the destination of an
    /// order cannot be reached.
    pub fn cancellation(&self, connection_id: &String) -> (r: String)
        ensures
            r@ == spec_cancel_message(self.pre_shared_key@, connection_id@),
    {
        cancel_message(&self.pre_shared_key, connection_id)
    }

    /// Advances the control loop by one event.
    pub fn step(&mut self, event: AgentEvent) -> (acts: Vec<AgentAction>)
        ensures
            spec_agent_step(*old(self), event, *final(self), acts@),
    {
        let mut acts: Vec<AgentAction> = Vec::new();
        match event {
            AgentEvent::Closed => {
                self.phase = AgentPhase::Stopped;
            },
            AgentEvent::Tick => {
                match self.phase {
                    AgentPhase::Stopped => {},
                    _ => {
                        let mut text = String::from_str("KEEP_ALIVE");
                        text.append("\n");
                        proof {
                            assert(text@ =~= frameln("KEEP_ALIVE"@));
                        }
                        acts.push(AgentAction::WriteText { text });
                    },
                }
            },
            AgentEvent::Line { text } => {
                let mut phase = AgentPhase::AwaitVerb;
                std::mem::swap(&mut phase, &mut self.phase);
                match phase {
                    AgentPhase::AwaitVerb => {
                        if verb_of(&text) == Verb::Connect {
                            self.phase = AgentPhase::AwaitDest;
                        } else {
                            self.phase = AgentPhase::AwaitVerb;
                        }
                    },
                    AgentPhase::AwaitDest => {
                        self.phase = AgentPhase::AwaitId { dest_address: text };
                    },
                    AgentPhase::AwaitId { dest_address } => {
                        acts.push(AgentAction::OpenTunnel { dest_address, connection_id: text });
                        self.phase = AgentPhase::AwaitVerb;
                    },
                    AgentPhase::Stopped => {
                        self.phase = AgentPhase::Stopped;
                    },
                }
            },
        }
        acts
    }
}

} // verus!
