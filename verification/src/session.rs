//! Server-side agent session.
//!
//! One session runs per inbound connection on the agent control endpoint.
//! It gates everything behind the pre-shared key, then classifies the
//! stream: a `NEW_AGENT` makes it a control stream that registers with the
//! broker and carries keep-alives and connection orders; a `CONNECT` makes
//! it a data stream, handed to the broker whole; a `CANCEL_CONNECTION`
//! drops a pending connection. The session is a state machine over
//! received lines, timer ticks and broker pushes; reading and writing the
//! socket is I/O around it.

use vstd::prelude::*;
use crate::messages::AgentMsg;
use crate::protocol::{Verb, spec_verb_of, verb_of, frameln, spec_connect_order, connect_order};
use vstd::string::*;

verus! {

/// Where a session stands in the protocol.
#[derive(Clone, Copy, Debug, PartialEq, Eq, Structural)]
pub enum SessionPhase {
    /// Nothing read yet; only `PRE_SHARED_KEY` is acceptable.
    AwaitPsk,
    /// The key itself must follow.
    AwaitPskKey,
    /// Authenticated; a verb line is next.
    AwaitVerb,
    /// A `NEW_AGENT` was read; its group name is next.
    AwaitGroup,
    /// A `CONNECT` was read; its connection identifier is next.
    AwaitConnectId,
    /// A `CANCEL_CONNECTION` was read; its connection identifier is next.
    AwaitCancelId,
    /// The stream became a data stream and now belongs to the broker.
    HandedOff,
    /// The stream is to be closed; the session is over.
    Closed,
}

/// What drives a session forward.
#[derive(Debug)]
pub enum SessionEvent {
    /// One line was read from the stream, terminator already stripped.
    Line { text: String },
    /// The stream reported end of file or an error.
    Closed,
    /// The keep-alive timer fired.
    Tick,
    /// The broker pushed a connection order for this session's agent.
    Order { dest_address: String, connection_id: String },
}

/// What a session asks its surroundings to do.
#[derive(Debug)]
pub enum SessionAction {
    /// Write this text to the stream as it stands, framing included.
    WriteText { text: String },
    /// Send this message to the broker.
    ToBroker { msg: AgentMsg },
    /// Close the stream.
    Close,
}

/// One server-side agent session.
#[derive(Debug)]
pub struct Session {
    /// The identifier the broker assigned to this session.
    pub agent_id: String,
    /// Where the peer connected from.
    pub remote_address: String,
    /// The handle of the accepted stream.
    pub stream: u64,
    /// This session's inbound channel, registered with the broker so it
    /// can push connection orders.
    pub channel: u64,
    /// The key every stream must present first.
    pub pre_shared_key: String,
    /// Where the session stands.
    pub phase: SessionPhase,
    /// Whether the `NEW_AGENT` handshake completed, which turns on
    /// keep-alives.
    pub ready: bool,
}

/// The fields a step never touches.
pub open spec fn spec_same_session_config(pre: Session, post: Session) -> bool {
    &&& post.agent_id@ == pre.agent_id@
    &&& post.remote_address@ == pre.remote_address@
    &&& post.stream == pre.stream
    &&& post.channel == pre.channel
    &&& post.pre_shared_key@ == pre.pre_shared_key@
}

/// The stream is closed and nothing was written or reported: how every
/// protocol violation ends.
pub open spec fn spec_closed_silently(pre: Session, post: Session, acts: Seq<SessionAction>) -> bool {
    &&& post.phase == SessionPhase::Closed
    &&& post.ready == pre.ready
    &&& acts =~= seq![SessionAction::Close]
}

/// What one received line does to a session.
pub open spec fn spec_session_line(
    pre: Session,
    line: Seq<char>,
    post: Session,
    acts: Seq<SessionAction>,
) -> bool {
    match pre.phase {
        SessionPhase::AwaitPsk => {
            if spec_verb_of(line) == Verb::PreSharedKey {
                &&& post.phase == SessionPhase::AwaitPskKey
                &&& post.ready == pre.ready
                &&& acts.len() == 0
            } else {
                spec_closed_silently(pre, post, acts)
            }
        },
        SessionPhase::AwaitPskKey => {
            if line == pre.pre_shared_key@ {
                &&& post.phase == SessionPhase::AwaitVerb
                &&& post.ready == pre.ready
                &&& acts.len() == 0
            } else {
                spec_closed_silently(pre, post, acts)
            }
        },
        SessionPhase::AwaitVerb => {
            match spec_verb_of(line) {
                Verb::NewAgent => {
                    &&& post.phase == SessionPhase::AwaitGroup
                    &&& post.ready == pre.ready
                    &&& acts.len() == 0
                },
                Verb::Connect => {
                    &&& post.phase == SessionPhase::AwaitConnectId
                    &&& post.ready == pre.ready
                    &&& acts.len() == 0
                },
                Verb::CancelConnection => {
                    &&& post.phase == SessionPhase::AwaitCancelId
                    &&& post.ready == pre.ready
                    &&& acts.len() == 0
                },
                Verb::KeepAlive => {
                    &&& post.phase == SessionPhase::AwaitVerb
                    &&& post.ready == pre.ready
                    &&& acts.len() == 0
                },
                _ => spec_closed_silently(pre, post, acts),
            }
        },
        SessionPhase::AwaitGroup => {
            &&& post.phase == SessionPhase::AwaitVerb
            &&& post.ready
            &&& acts.len() == 2
            &&& acts[0] matches SessionAction::WriteText { text } && text@ == frameln("OK"@)
            &&& acts[1] matches SessionAction::ToBroker {
                msg: AgentMsg::NewAgent { agent_id, group_name, remote_address, channel },
            } && agent_id@ == pre.agent_id@ && group_name@ == line && remote_address@
                == pre.remote_address@ && channel == pre.channel
        },
        SessionPhase::AwaitConnectId => {
            &&& post.phase == SessionPhase::HandedOff
            &&& post.ready == pre.ready
            &&& acts.len() == 1
            &&& acts[0] matches SessionAction::ToBroker {
                msg: AgentMsg::Connect { agent_id, connection_id, remote_address, stream },
            } && agent_id@ == pre.agent_id@ && connection_id@ == line && remote_address@
                == pre.remote_address@ && stream == pre.stream
        },
        SessionPhase::AwaitCancelId => {
            &&& post.phase == SessionPhase::Closed
            &&& post.ready == pre.ready
            &&& acts.len() == 2
            &&& acts[0] matches SessionAction::ToBroker {
                msg: AgentMsg::CancelConnection { connection_id },
            } && connection_id@ == line
            &&& acts[1] is Close
        },
        SessionPhase::HandedOff => {
            &&& post.phase == pre.phase
            &&& post.ready == pre.ready
            &&& acts.len() == 0
        },
        SessionPhase::Closed => {
            &&& post.phase == pre.phase
            &&& post.ready == pre.ready
            &&& acts.len() == 0
        },
    }
}

/// What one event does to a session.
pub open spec fn spec_session_step(
    pre: Session,
    event: SessionEvent,
    post: Session,
    acts: Seq<SessionAction>,
) -> bool {
    &&& spec_same_session_config(pre, post)
    &&& match event {
        SessionEvent::Line { text } => spec_session_line(pre, text@, post, acts),
        SessionEvent::Closed => {
            &&& post.phase == SessionPhase::Closed
            &&& post.ready == pre.ready
            &&& acts =~= seq![SessionAction::Close]
        },
        SessionEvent::Tick => {
            &&& post.phase == pre.phase
            &&& post.ready == pre.ready
            &&& if pre.ready {
                acts.len() == 1 && (acts[0] matches SessionAction::WriteText { text } && text@
                    == frameln("KEEP_ALIVE"@))
            } else {
                acts.len() == 0
            }
        },
        SessionEvent::Order { dest_address, connection_id } => {
            &&& post.phase == pre.phase
            &&& post.ready == pre.ready
            &&& acts.len() == 1
            &&& acts[0] matches SessionAction::WriteText { text } && text@ == spec_connect_order(
                dest_address@,
                connection_id@,
            )
        },
    }
}

impl Session {
    /// A fresh session for an accepted control connection.
    pub fn new(
        agent_id: String,
        remote_address: String,
        stream: u64,
        channel: u64,
        pre_shared_key: String,
    ) -> (s: Session)
        ensures
            s.agent_id == agent_id,
            s.remote_address == remote_address,
            s.stream == stream,
            s.channel == channel,
            s.pre_shared_key == pre_shared_key,
            s.phase == SessionPhase::AwaitPsk,
            !s.ready,
    {
        Session {
            agent_id,
            remote_address,
            stream,
            channel,
            pre_shared_key,
            phase: SessionPhase::AwaitPsk,
            ready: false,
        }
    }

    /// Whether the session is over, one way or the other.
    pub fn is_finished(&self) -> (r: bool)
        ensures
            r == (self.phase == SessionPhase::HandedOff || self.phase == SessionPhase::Closed),
    {
        self.phase == SessionPhase::HandedOff || self.phase == SessionPhase::Closed
    }

    /// The message a session emits to the broker when it ends.
    pub fn deregister_msg(&self) -> (m: AgentMsg)
        ensures
            m matches AgentMsg::Deregister { agent_id } && agent_id@ == self.agent_id@,
    {
        AgentMsg::Deregister { agent_id: self.agent_id.clone() }
    }

    /// Advances the session by one event.
    pub fn step(&mut self, event: SessionEvent) -> (acts: Vec<SessionAction>)
        ensures
            spec_session_step(*old(self), event, *final(self), acts@),
    {
        match event {
            SessionEvent::Closed => {
                self.phase = SessionPhase::Closed;
                let mut acts: Vec<SessionAction> = Vec::new();
                acts.push(SessionAction::Close);
                acts
            },
            SessionEvent::Tick => {
                let mut acts: Vec<SessionAction> = Vec::new();
                if self.ready {
                    let mut text = String::from_str("KEEP_ALIVE");
                    text.append("\n");
                    proof {
                        assert(text@ =~= frameln("KEEP_ALIVE"@));
                    }
                    acts.push(SessionAction::WriteText { text });
                }
                acts
            },
            SessionEvent::Order { dest_address, connection_id } => {
                let text = connect_order(&dest_address, &connection_id);
                let mut acts: Vec<SessionAction> = Vec::new();
                acts.push(SessionAction::WriteText { text });
                acts
            },
            SessionEvent::Line { text } => self.step_line(text),
        }
    }

    /// Advances the session by one received line.
    fn step_line(&mut self, text: String) -> (acts: Vec<SessionAction>)
        ensures
            spec_same_session_config(*old(self), *final(self)),
            spec_session_line(*old(self), text@, *final(self), acts@),
    {
        let mut acts: Vec<SessionAction> = Vec::new();
        match self.phase {
            SessionPhase::AwaitPsk => {
                if verb_of(&text) == Verb::PreSharedKey {
                    self.phase = SessionPhase::AwaitPskKey;
                } else {
                    self.phase = SessionPhase::Closed;
                    acts.push(SessionAction::Close);
                }
            },
            SessionPhase::AwaitPskKey => {
                if text == self.pre_shared_key {
                    self.phase = SessionPhase::AwaitVerb;
                } else {
                    self.phase = SessionPhase::Closed;
                    acts.push(SessionAction::Close);
                }
            },
            SessionPhase::AwaitVerb => {
                match verb_of(&text) {
                    Verb::NewAgent => {
                        self.phase = SessionPhase::AwaitGroup;
                    },
                    Verb::Connect => {
                        self.phase = SessionPhase::AwaitConnectId;
                    },
                    Verb::CancelConnection => {
                        self.phase = SessionPhase::AwaitCancelId;
                    },
                    Verb::KeepAlive => {},
                    _ => {
                        self.phase = SessionPhase::Closed;
                        acts.push(SessionAction::Close);
                    },
                }
            },
            SessionPhase::AwaitGroup => {
                let mut reply = String::from_str("OK");
                reply.append("\n");
                proof {
                    assert(reply@ =~= frameln("OK"@));
                }
                acts.push(SessionAction::WriteText { text: reply });
                acts.push(
                    SessionAction::ToBroker {
                        msg: AgentMsg::NewAgent {
                            agent_id: self.agent_id.clone(),
                            group_name: text,
                            remote_address: self.remote_address.clone(),
                            channel: self.channel,
                        },
                    },
                );
                self.phase = SessionPhase::AwaitVerb;
                self.ready = true;
            },
            SessionPhase::AwaitConnectId => {
                acts.push(
                    SessionAction::ToBroker {
                        msg: AgentMsg::Connect {
                            agent_id: self.agent_id.clone(),
                            connection_id: text,
                            remote_address: self.remote_address.clone(),
                            stream: self.stream,
                        },
                    },
                );
                self.phase = SessionPhase::HandedOff;
            },
            SessionPhase::AwaitCancelId => {
                acts.push(
                    SessionAction::ToBroker {
                        msg: AgentMsg::CancelConnection { connection_id: text },
                    },
                );
                acts.push(SessionAction::Close);
                self.phase = SessionPhase::Closed;
            },
            SessionPhase::HandedOff => {},
            SessionPhase::Closed => {},
        }
        acts
    }
}

/// A pre-shared-key mismatch closes the stream with no reply: the step
/// neither writes to the stream nor reports anything to the broker; the
/// only action is the close itself.
pub proof fn lemma_psk_mismatch_closes_silently(
    pre: Session,
    text: String,
    post: Session,
    acts: Seq<SessionAction>,
)
    requires
        pre.phase == SessionPhase::AwaitPskKey,
        text@ != pre.pre_shared_key@,
        spec_session_step(pre, SessionEvent::Line { text }, post, acts),
    ensures
        post.phase == SessionPhase::Closed,
        acts =~= seq![SessionAction::Close],
        forall|i: int| 0 <= i < acts.len() ==> !(#[trigger] acts[i] is WriteText),
        forall|i: int| 0 <= i < acts.len() ==> !(#[trigger] acts[i] is ToBroker),
{
}

} // verus!
