//! Control-protocol codec.
//!
//! All verbs are ASCII, case-sensitive, one per line, each followed by zero
//! or more argument lines. The composite messages below are the exact byte
//! sequences (as characters, one byte per character) that cross the wire.

use vstd::prelude::*;
use vstd::string::*;

verus! {

/// A control verb, one per line on the wire.
#[derive(Clone, Copy, Debug, PartialEq, Eq, Structural)]
pub enum Verb {
    /// `PRE_SHARED_KEY`: authenticates the stream; its key follows.
    PreSharedKey,
    /// `NEW_AGENT`: registers the stream as a control stream; group follows.
    NewAgent,
    /// `CONNECT`: agent to server, a data stream bearing a connection id;
    /// server to agent, an order to open one (dest and id follow).
    Connect,
    /// `CANCEL_CONNECTION`: the agent could not reach the destination.
    CancelConnection,
    /// `KEEP_ALIVE`: a no-op heartbeat, both directions.
    KeepAlive,
    /// `OK`: positive acknowledgment of `NEW_AGENT`.
    Okay,
    /// Anything else.
    Unknown,
}

/// The verb a received line means.
pub open spec fn spec_verb_of(line: Seq<char>) -> Verb {
    if line == "PRE_SHARED_KEY"@ {
        Verb::PreSharedKey
    } else if line == "NEW_AGENT"@ {
        Verb::NewAgent
    } else if line == "CONNECT"@ {
        Verb::Connect
    } else if line == "CANCEL_CONNECTION"@ {
        Verb::CancelConnection
    } else if line == "KEEP_ALIVE"@ {
        Verb::KeepAlive
    } else if line == "OK"@ {
        Verb::Okay
    } else {
        Verb::Unknown
    }
}

/// Classifies a received line as a verb.
pub fn verb_of(line: &String) -> (v: Verb)
    ensures
        v == spec_verb_of(line@),
{
    if *line == String::from_str("PRE_SHARED_KEY") {
        Verb::PreSharedKey
    } else if *line == String::from_str("NEW_AGENT") {
        Verb::NewAgent
    } else if *line == String::from_str("CONNECT") {
        Verb::Connect
    } else if *line == String::from_str("CANCEL_CONNECTION") {
        Verb::CancelConnection
    } else if *line == String::from_str("KEEP_ALIVE") {
        Verb::KeepAlive
    } else if *line == String::from_str("OK") {
        Verb::Okay
    } else {
        Verb::Unknown
    }
}

/// One framed line: the text, then the terminator.
pub open spec fn frameln(s: Seq<char>) -> Seq<char> {
    s + "\n"@
}

/// The opening an agent sends on a fresh control stream:
/// `PRE_SHARED_KEY`, the key, `NEW_AGENT`, the group name.
pub open spec fn spec_handshake(key: Seq<char>, group: Seq<char>) -> Seq<char> {
    frameln("PRE_SHARED_KEY"@) + frameln(key) + frameln("NEW_AGENT"@) + frameln(group)
}

/// Builds the agent's control-stream opening.
pub fn handshake_message(key: &String, group: &String) -> (r: String)
    ensures
        r@ == spec_handshake(key@, group@),
{
    let mut m = String::from_str("PRE_SHARED_KEY");
    m.append("\n");
    m.append(key.as_str());
    m.append("\n");
    m.append("NEW_AGENT");
    m.append("\n");
    m.append(group.as_str());
    m.append("\n");
    proof {
        assert(m@ =~= spec_handshake(key@, group@));
    }
    m
}

/// The opening an agent sends on a fresh data stream:
/// `PRE_SHARED_KEY`, the key, `CONNECT`, the connection identifier.
pub open spec fn spec_connect_opener(key: Seq<char>, connection_id: Seq<char>) -> Seq<char> {
    frameln("PRE_SHARED_KEY"@) + frameln(key) + frameln("CONNECT"@) + frameln(connection_id)
}

/// Builds the agent's data-stream opening.
pub fn connect_opener(key: &String, connection_id: &String) -> (r: String)
    ensures
        r@ == spec_connect_opener(key@, connection_id@),
{
    let mut m = String::from_str("PRE_SHARED_KEY");
    m.append("\n");
    m.append(key.as_str());
    m.append("\n");
    m.append("CONNECT");
    m.append("\n");
    m.append(connection_id.as_str());
    m.append("\n");
    proof {
        assert(m@ =~= spec_connect_opener(key@, connection_id@));
    }
    m
}

/// What an agent sends on a fresh stream to drop a pending connection:
/// `PRE_SHARED_KEY`, the key, `CANCEL_CONNECTION`, the connection
/// identifier. The cancellation stream authenticates first, as every other
/// stream does, so that the server accepts the verb.
pub open spec fn spec_cancel_message(key: Seq<char>, connection_id: Seq<char>) -> Seq<char> {
    frameln("PRE_SHARED_KEY"@) + frameln(key) + frameln("CANCEL_CONNECTION"@) + frameln(
        connection_id,
    )
}

/// Builds the agent's cancellation message.
pub fn cancel_message(key: &String, connection_id: &String) -> (r: String)
    ensures
        r@ == spec_cancel_message(key@, connection_id@),
{
    let mut m = String::from_str("PRE_SHARED_KEY");
    m.append("\n");
    m.append(key.as_str());
    m.append("\n");
    m.append("CANCEL_CONNECTION");
    m.append("\n");
    m.append(connection_id.as_str());
    m.append("\n");
    proof {
        assert(m@ =~= spec_cancel_message(key@, connection_id@));
    }
    m
}

/// The order a server pushes down a control stream:
/// `CONNECT`, the destination address, the connection identifier.
pub open spec fn spec_connect_order(dest: Seq<char>, connection_id: Seq<char>) -> Seq<char> {
    frameln("CONNECT"@) + frameln(dest) + frameln(connection_id)
}

/// Builds the server's connection order.
pub fn connect_order(dest: &String, connection_id: &String) -> (r: String)
    ensures
        r@ == spec_connect_order(dest@, connection_id@),
{
    let mut m = String::from_str("CONNECT");
    m.append("\n");
    m.append(dest.as_str());
    m.append("\n");
    m.append(connection_id.as_str());
    m.append("\n");
    proof {
        assert(m@ =~= spec_connect_order(dest@, connection_id@));
    }
    m
}

} // verus!
