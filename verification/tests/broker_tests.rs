use munnel::broker::{Broker, BrokerAction, MAX_AGENT_CONNECTIONS};
use munnel::configs::{add_server_config, ServerConfig, ServerConfigs};

fn configs_of(entries: &[(&str, &str, &str, &str)]) -> ServerConfigs {
    let mut set = ServerConfigs::new();
    for (name, group, bind, dest) in entries {
        let c = ServerConfig {
            service_name: name.to_string(),
            agent_group_name: group.to_string(),
            server_bind_endpoint: bind.to_string(),
            agent_service_endpoint: dest.to_string(),
        };
        add_server_config(&c, &mut set);
    }
    set
}

fn register(b: &mut Broker, id: &str, group: &str, channel: u64) {
    b.register_agent(id.to_string(), group.to_string(), "10.0.0.9:1".to_string(), channel);
}

fn order_of(acts: &[BrokerAction]) -> (u64, String, String) {
    assert_eq!(acts.len(), 1);
    match &acts[0] {
        BrokerAction::SendOrder { channel, dest_address, connection_id } => {
            (*channel, dest_address.clone(), connection_id.clone())
        },
        _ => panic!("expected a connection order"),
    }
}

#[test]
fn reconcile_spawns_listener_once_an_agent_supports_it() {
    let cfgs = configs_of(&[("web", "", "127.0.0.1:18080", "127.0.0.1:9000")]);
    let mut b = Broker::new(cfgs);
    // No agent yet: nothing to spawn.
    assert!(b.reconcile().is_empty());
    assert_eq!(b.services.len(), 0);
    register(&mut b, "agent-1", "", 3);
    let acts = b.reconcile();
    assert_eq!(acts.len(), 1);
    match &acts[0] {
        BrokerAction::SpawnServiceListener { service_name, bind_endpoint } => {
            assert_eq!(service_name, &"web".to_string());
            assert_eq!(bind_endpoint, &"127.0.0.1:18080".to_string());
        },
        _ => panic!("expected a listener spawn"),
    }
    assert_eq!(b.services.len(), 1);
    assert_eq!(b.services[0].counter, 1);
    // A second pass changes nothing.
    assert!(b.reconcile().is_empty());
    assert_eq!(b.services.len(), 1);
}

#[test]
fn reconcile_shuts_listener_down_when_its_last_agent_leaves() {
    let cfgs = configs_of(&[("web", "west", "b", "d")]);
    let mut b = Broker::new(cfgs);
    register(&mut b, "agent-1", "west", 3);
    b.reconcile();
    b.handle_new_service(&"web".to_string(), 5);
    b.deregister_agent(&"agent-1".to_string());
    let acts = b.reconcile();
    assert_eq!(acts.len(), 1);
    match &acts[0] {
        BrokerAction::SendShutdown { channel } => assert_eq!(*channel, 5),
        _ => panic!("expected a shutdown order"),
    }
    assert_eq!(b.services.len(), 0);
}

#[test]
fn reconcile_drops_silent_listener_without_shutdown() {
    // The handle never learned its channel: it is dropped, nothing is sent.
    let cfgs = configs_of(&[("web", "west", "b", "d")]);
    let mut b = Broker::new(cfgs);
    register(&mut b, "agent-1", "west", 3);
    b.reconcile();
    b.deregister_agent(&"agent-1".to_string());
    let acts = b.reconcile();
    assert!(acts.is_empty());
    assert_eq!(b.services.len(), 0);
}

#[test]
fn agent_cap_closes_the_next_connection_unanswered() {
    let cfgs = configs_of(&[("web", "", "b", "d")]);
    let mut b = Broker::new(cfgs);
    for i in 0..MAX_AGENT_CONNECTIONS {
        let acts = b.handle_agent_accept(i as u64, "10.0.0.9:1".to_string());
        assert_eq!(acts.len(), 1);
        assert!(matches!(acts[0], BrokerAction::SpawnAgentSession { .. }));
    }
    let acts = b.handle_agent_accept(9999, "10.0.0.9:1".to_string());
    assert_eq!(acts.len(), 1);
    assert!(matches!(acts[0], BrokerAction::CloseStream { stream: 9999 }));
    assert_eq!(b.unauth_sessions, MAX_AGENT_CONNECTIONS);
}

#[test]
fn accepted_sessions_get_fresh_guid_identities() {
    let cfgs = configs_of(&[("web", "", "b", "d")]);
    let mut b = Broker::new(cfgs);
    let acts = b.handle_agent_accept(1, "10.0.0.9:1".to_string());
    match &acts[0] {
        BrokerAction::SpawnAgentSession { agent_id, stream, remote_address } => {
            assert_eq!(agent_id.len(), 36);
            assert_eq!(*stream, 1);
            assert_eq!(remote_address, &"10.0.0.9:1".to_string());
        },
        _ => panic!("expected a session spawn"),
    }
}

#[test]
fn registration_counts_each_agent_once() {
    let cfgs = configs_of(&[("web", "", "b", "d")]);
    let mut b = Broker::new(cfgs);
    register(&mut b, "agent-1", "g1", 1);
    register(&mut b, "agent-2", "g1", 2);
    assert_eq!(b.get_connected_agent_count(), 2);
    // A second registration under the same identifier replaces the first.
    register(&mut b, "agent-1", "g2", 9);
    assert_eq!(b.get_connected_agent_count(), 2);
    b.deregister_agent(&"agent-1".to_string());
    assert_eq!(b.get_connected_agent_count(), 1);
    b.deregister_agent(&"agent-1".to_string());
    assert_eq!(b.get_connected_agent_count(), 1);
}

#[test]
fn round_robin_walks_the_candidates_in_turn() {
    let cfgs = configs_of(&[("svc", "", "b", "10.0.0.7:9000")]);
    let mut b = Broker::new(cfgs);
    register(&mut b, "agent-a", "", 1);
    register(&mut b, "agent-b", "", 2);
    register(&mut b, "agent-c", "", 3);
    b.reconcile();
    // The counter starts at 1, so the indexes run 1, 2, 0, 1, 2 modulo 3.
    let mut channels: Vec<u64> = Vec::new();
    for i in 0..5 {
        let acts = b.handle_client_connect(&"svc".to_string(), 100 + i, &"c:1".to_string());
        let (channel, dest, _id) = order_of(&acts);
        assert_eq!(dest, "10.0.0.7:9000".to_string());
        channels.push(channel);
    }
    assert_eq!(channels, vec![2, 3, 1, 2, 3]);
    assert_eq!(b.pending.len(), 5);
}

#[test]
fn group_routing_restricts_candidates() {
    let cfgs = configs_of(&[("a", "g1", "b1", "d1"), ("b", "g2", "b2", "d2")]);
    let mut b = Broker::new(cfgs);
    register(&mut b, "agent-x", "g1", 10);
    register(&mut b, "agent-y", "", 20);
    b.reconcile();
    // Service b: only the any-group agent is eligible.
    for i in 0..2 {
        let acts = b.handle_client_connect(&"b".to_string(), 200 + i, &"c:1".to_string());
        let (channel, _, _) = order_of(&acts);
        assert_eq!(channel, 20);
    }
    // Service a: its group's agent and the any-group agent alternate.
    let acts = b.handle_client_connect(&"a".to_string(), 300, &"c:1".to_string());
    let (first, _, _) = order_of(&acts);
    let acts = b.handle_client_connect(&"a".to_string(), 301, &"c:1".to_string());
    let (second, _, _) = order_of(&acts);
    assert_eq!(first, 20);
    assert_eq!(second, 10);
}

#[test]
fn unknown_service_is_ignored_and_no_agent_drops_the_client() {
    let cfgs = configs_of(&[("svc", "west", "b", "d")]);
    let mut b = Broker::new(cfgs);
    register(&mut b, "agent-1", "west", 1);
    b.reconcile();
    let acts = b.handle_client_connect(&"nope".to_string(), 50, &"c:1".to_string());
    assert!(acts.is_empty());
    // The listener still stands, but its agent is gone: the client is dropped.
    b.deregister_agent(&"agent-1".to_string());
    let acts = b.handle_client_connect(&"svc".to_string(), 51, &"c:1".to_string());
    assert_eq!(acts.len(), 1);
    assert!(matches!(acts[0], BrokerAction::CloseStream { stream: 51 }));
    assert_eq!(b.pending.len(), 0);
}

#[test]
fn rendezvous_pairs_the_two_streams() {
    let cfgs = configs_of(&[("svc", "", "b", "d")]);
    let mut b = Broker::new(cfgs);
    register(&mut b, "agent-1", "", 1);
    b.reconcile();
    let acts = b.handle_client_connect(&"svc".to_string(), 77, &"c:1".to_string());
    let (_, _, connection_id) = order_of(&acts);
    let acts = b.match_connect(&connection_id, 88);
    assert_eq!(acts.len(), 1);
    match &acts[0] {
        BrokerAction::SpawnSplice { connection_id: id, client_stream, agent_stream } => {
            assert_eq!(id, &connection_id);
            assert_eq!(*client_stream, 77);
            assert_eq!(*agent_stream, 88);
        },
        _ => panic!("expected a splice"),
    }
    assert_eq!(b.pending.len(), 0);
}

#[test]
fn unknown_connection_id_discards_the_data_stream() {
    let cfgs = configs_of(&[("svc", "", "b", "d")]);
    let mut b = Broker::new(cfgs);
    let acts = b.match_connect(&"never-issued".to_string(), 88);
    assert_eq!(acts.len(), 1);
    assert!(matches!(acts[0], BrokerAction::CloseStream { stream: 88 }));
}

#[test]
fn cancellation_drops_the_pending_client_stream() {
    let cfgs = configs_of(&[("svc", "", "b", "d")]);
    let mut b = Broker::new(cfgs);
    register(&mut b, "agent-1", "", 1);
    b.reconcile();
    let acts = b.handle_client_connect(&"svc".to_string(), 77, &"c:1".to_string());
    let (_, _, connection_id) = order_of(&acts);
    assert_eq!(b.pending.len(), 1);
    let acts = b.cancel_connection(&connection_id);
    assert_eq!(acts.len(), 1);
    assert!(matches!(acts[0], BrokerAction::CloseStream { stream: 77 }));
    assert_eq!(b.pending.len(), 0);
    // A second cancellation finds nothing.
    assert!(b.cancel_connection(&connection_id).is_empty());
}

#[test]
fn group_names_for_a_service_end_with_the_open_group() {
    let cfgs = configs_of(&[("svc", "g1", "b1", "d1"), ("svc", "g2", "b2", "d2"), (
        "other",
        "g3",
        "b3",
        "d3",
    )]);
    let names = munnel::broker::get_service_group_names(&"svc".to_string(), &cfgs);
    assert_eq!(names, vec!["g1".to_string(), "g2".to_string(), "".to_string()]);
}
