use munnel::agent::{AgentAction, AgentCtl, AgentEvent, AgentPhase};
use munnel::splice::{splice, SpliceReport};

fn fresh_agent() -> AgentCtl {
    AgentCtl::new("west".to_string(), "127.0.0.1:10000".to_string(), "ABC123".to_string())
}

fn line(text: &str) -> AgentEvent {
    AgentEvent::Line { text: text.to_string() }
}

#[test]
fn agent_handshake_is_bit_exact() {
    let a = fresh_agent();
    assert_eq!(a.handshake(), "PRE_SHARED_KEY\nABC123\nNEW_AGENT\nwest\n".to_string());
    assert!(AgentCtl::handshake_accepted(&"OK".to_string()));
    assert!(!AgentCtl::handshake_accepted(&"NO".to_string()));
    assert!(!AgentCtl::handshake_accepted(&"OK\n".to_string()));
}

#[test]
fn connect_order_opens_a_tunnel() {
    let mut a = fresh_agent();
    assert!(a.step(line("CONNECT")).is_empty());
    assert!(a.step(line("10.0.0.7:5432")).is_empty());
    let acts = a.step(line("conn-1"));
    assert_eq!(acts.len(), 1);
    match &acts[0] {
        AgentAction::OpenTunnel { dest_address, connection_id } => {
            assert_eq!(dest_address, &"10.0.0.7:5432".to_string());
            assert_eq!(connection_id, &"conn-1".to_string());
        },
        _ => panic!("expected the tunnel order"),
    }
    assert!(matches!(a.phase, AgentPhase::AwaitVerb));
}

#[test]
fn ok_and_keep_alive_and_unknown_are_ignored() {
    let mut a = fresh_agent();
    assert!(a.step(line("OK")).is_empty());
    assert!(a.step(line("KEEP_ALIVE")).is_empty());
    assert!(a.step(line("BOGUS")).is_empty());
    assert!(matches!(a.phase, AgentPhase::AwaitVerb));
}

#[test]
fn tick_writes_framed_keep_alive() {
    let mut a = fresh_agent();
    let acts = a.step(AgentEvent::Tick);
    assert_eq!(acts.len(), 1);
    match &acts[0] {
        AgentAction::WriteText { text } => assert_eq!(text, &"KEEP_ALIVE\n".to_string()),
        _ => panic!("expected the keep-alive"),
    }
}

#[test]
fn lost_stream_stops_the_loop_until_reset() {
    let mut a = fresh_agent();
    assert!(a.step(AgentEvent::Closed).is_empty());
    assert!(a.is_stopped());
    assert!(a.step(AgentEvent::Tick).is_empty());
    a.reset();
    assert!(!a.is_stopped());
}

#[test]
fn tunnel_streams_authenticate_and_cancel_with_key() {
    let a = fresh_agent();
    assert_eq!(
        a.tunnel_opener(&"conn-1".to_string()),
        "PRE_SHARED_KEY\nABC123\nCONNECT\nconn-1\n".to_string()
    );
    assert_eq!(
        a.cancellation(&"conn-1".to_string()),
        "PRE_SHARED_KEY\nABC123\nCANCEL_CONNECTION\nconn-1\n".to_string()
    );
}

#[test]
fn splice_relays_bytes_unchanged_and_counts_them() {
    let client_wrote: Vec<u8> = b"hello".to_vec();
    let destination_wrote: Vec<u8> = b"hello back".to_vec();
    let mut to_client: Vec<u8> = Vec::new();
    let mut to_destination: Vec<u8> = Vec::new();
    let report = splice(&client_wrote, &destination_wrote, &mut to_client, &mut to_destination);
    assert_eq!(to_destination, client_wrote);
    assert_eq!(to_client, destination_wrote);
    assert_eq!(report, SpliceReport { bytes_a_to_b: 5, bytes_b_to_a: 10 });
}

#[test]
fn splice_appends_after_earlier_output() {
    let a_in: Vec<u8> = b"23".to_vec();
    let b_in: Vec<u8> = Vec::new();
    let mut a_out: Vec<u8> = Vec::new();
    let mut b_out: Vec<u8> = b"1".to_vec();
    let report = splice(&a_in, &b_in, &mut a_out, &mut b_out);
    assert_eq!(b_out, b"123".to_vec());
    assert_eq!(a_out, Vec::<u8>::new());
    assert_eq!(report.bytes_a_to_b, 2);
    assert_eq!(report.bytes_b_to_a, 0);
}
