//! One tunneled session, driven through the verified state machines end
//! to end: an agent registers, a client connects, the broker orders the
//! agent to dial, the data stream comes back under the connection
//! identifier, and the splice relays the bytes unchanged.

use munnel::agent::{AgentAction, AgentCtl, AgentEvent};
use munnel::broker::{Broker, BrokerAction};
use munnel::configs::{add_server_config, ServerConfig, ServerConfigs};
use munnel::messages::AgentMsg;
use munnel::session::{Session, SessionAction, SessionEvent};
use munnel::splice::splice;

/// Feeds every line of a framed wire message into a session, collecting
/// the actions, the way the server's reader would.
fn feed_lines(session: &mut Session, wire: &str) -> Vec<SessionAction> {
    let mut parts: Vec<&str> = wire.split('\n').collect();
    // The wire text ends with a terminator; the split leaves one empty
    // artifact behind it that is no line of its own.
    parts.pop();
    let mut acts = Vec::new();
    for line in parts {
        if session.is_finished() {
            break;
        }
        acts.extend(session.step(SessionEvent::Line { text: line.to_string() }));
    }
    acts
}

#[test]
fn happy_path_relays_bytes_end_to_end() {
    let key = "ABC123".to_string();

    // Server: one service, open group, destination inside the agent's network.
    let mut configs = ServerConfigs::new();
    add_server_config(
        &ServerConfig {
            service_name: "web".to_string(),
            agent_group_name: "".to_string(),
            server_bind_endpoint: "127.0.0.1:18080".to_string(),
            agent_service_endpoint: "127.0.0.1:9000".to_string(),
        },
        &mut configs,
    );
    let mut broker = Broker::new(configs);

    // The agent dials the control endpoint; the broker spawns a session.
    let acts = broker.handle_agent_accept(1, "10.0.0.2:40000".to_string());
    let agent_id = match &acts[0] {
        BrokerAction::SpawnAgentSession { agent_id, .. } => agent_id.clone(),
        _ => panic!("expected a session spawn"),
    };
    let mut control = Session::new(
        agent_id,
        "10.0.0.2:40000".to_string(),
        1,
        7,
        key.clone(),
    );

    // The agent's handshake crosses the wire and registers it.
    let mut agent = AgentCtl::new("".to_string(), "127.0.0.1:10000".to_string(), key.clone());
    let acts = feed_lines(&mut control, &agent.handshake());
    assert_eq!(acts.len(), 2);
    match &acts[1] {
        SessionAction::ToBroker {
            msg: AgentMsg::NewAgent { agent_id, group_name, remote_address, channel },
        } => {
            broker.register_agent(
                agent_id.clone(),
                group_name.clone(),
                remote_address.clone(),
                *channel,
            );
        },
        _ => panic!("expected the registration"),
    }

    // Reconciliation opens the service to clients.
    let acts = broker.reconcile();
    assert!(matches!(&acts[0], BrokerAction::SpawnServiceListener { .. }));

    // A client connects; the broker parks its stream and orders the tunnel.
    let acts = broker.handle_client_connect(&"web".to_string(), 100, &"127.0.0.1:50001".to_string());
    let (channel, dest, connection_id) = match &acts[0] {
        BrokerAction::SendOrder { channel, dest_address, connection_id } => {
            (*channel, dest_address.clone(), connection_id.clone())
        },
        _ => panic!("expected a connection order"),
    };
    assert_eq!(channel, 7);
    assert_eq!(dest, "127.0.0.1:9000".to_string());

    // The order crosses the control stream to the agent.
    let acts = control.step(SessionEvent::Order {
        dest_address: dest.clone(),
        connection_id: connection_id.clone(),
    });
    let order_wire = match &acts[0] {
        SessionAction::WriteText { text } => text.clone(),
        _ => panic!("expected the order on the wire"),
    };
    let mut tunnel_order = None;
    for line in order_wire.split('\n') {
        if line.is_empty() {
            continue;
        }
        for act in agent.step(AgentEvent::Line { text: line.to_string() }) {
            tunnel_order = Some(act);
        }
    }
    let (tunnel_dest, tunnel_id) = match tunnel_order {
        Some(AgentAction::OpenTunnel { dest_address, connection_id }) => {
            (dest_address, connection_id)
        },
        _ => panic!("expected the tunnel order"),
    };
    assert_eq!(tunnel_dest, dest);
    assert_eq!(tunnel_id, connection_id);

    // The agent opens a fresh data stream back; a second session takes it.
    let acts = broker.handle_agent_accept(200, "10.0.0.2:40001".to_string());
    let data_agent_id = match &acts[0] {
        BrokerAction::SpawnAgentSession { agent_id, .. } => agent_id.clone(),
        _ => panic!("expected a session spawn"),
    };
    let mut data = Session::new(
        data_agent_id,
        "10.0.0.2:40001".to_string(),
        200,
        8,
        key.clone(),
    );
    let opener = agent.tunnel_opener(&tunnel_id);
    let acts = feed_lines(&mut data, &opener);
    assert_eq!(acts.len(), 1);
    let handed = match &acts[0] {
        SessionAction::ToBroker { msg: AgentMsg::Connect { connection_id, stream, .. } } => {
            (connection_id.clone(), *stream)
        },
        _ => panic!("expected the data-stream handoff"),
    };
    assert_eq!(handed, (connection_id.clone(), 200));

    // The rendezvous pairs the parked client stream with the data stream.
    let acts = broker.match_connect(&handed.0, handed.1);
    match &acts[0] {
        BrokerAction::SpawnSplice { client_stream, agent_stream, .. } => {
            assert_eq!(*client_stream, 100);
            assert_eq!(*agent_stream, 200);
        },
        _ => panic!("expected the splice"),
    }
    assert_eq!(broker.pending.len(), 0);

    // The splice relays the client's bytes and the echoed reply unchanged.
    let client_wrote: Vec<u8> = b"hello\n".to_vec();
    let destination_wrote: Vec<u8> = b"hello\n".to_vec();
    let mut to_client: Vec<u8> = Vec::new();
    let mut to_destination: Vec<u8> = Vec::new();
    let report = splice(&client_wrote, &destination_wrote, &mut to_client, &mut to_destination);
    assert_eq!(to_destination, client_wrote);
    assert_eq!(to_client, destination_wrote);
    assert_eq!(report.bytes_a_to_b, 6);
    assert_eq!(report.bytes_b_to_a, 6);
}
