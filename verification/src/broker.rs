//! The broker: the server's single event loop and all of its state.
//!
//! The broker owns the agent registry, the service-listener registry and
//! the pending-connection map. Agent sessions, service listeners and
//! splices run as independent tasks and reach the broker only through
//! messages; streams move by ownership transfer and are opaque handles
//! here. Each public method below handles one event: it updates the state
//! and returns the actions the surrounding I/O layer must carry out.

use vstd::prelude::*;
use vstd::seq_lib::*;
use vstd::string::*;
use crate::configs::{ServerConfig, ServerConfigs};
use crate::ids::{get_rand_guid, is_guid_chars};

verus! {

/// Hard cap on concurrent agent control connections.
pub const MAX_AGENT_CONNECTIONS: usize = 1000;

/// A registered agent: a session that completed the `NEW_AGENT`
/// handshake.
#[derive(Debug)]
pub struct AgentRegistration {
    /// The identifier the broker assigned when it accepted the session.
    pub agent_id: String,
    /// The group the agent serves; empty means every group.
    pub group_name: String,
    /// Where the agent connected from.
    pub remote_address: String,
    /// The session's inbound channel, used to push connection orders.
    pub channel: u64,
}

impl Clone for AgentRegistration {
    fn clone(&self) -> (r: Self)
        ensures
            r == *self,
    {
        AgentRegistration {
            agent_id: self.agent_id.clone(),
            group_name: self.group_name.clone(),
            remote_address: self.remote_address.clone(),
            channel: self.channel,
        }
    }
}

/// The mathematical shadow of a registration.
pub ghost struct AgentView {
    pub agent_id: Seq<char>,
    pub group_name: Seq<char>,
    pub remote_address: Seq<char>,
    pub channel: u64,
}

impl View for AgentRegistration {
    type V = AgentView;

    open spec fn view(&self) -> AgentView {
        AgentView {
            agent_id: self.agent_id@,
            group_name: self.group_name@,
            remote_address: self.remote_address@,
            channel: self.channel,
        }
    }
}

impl DeepView for AgentRegistration {
    type V = AgentView;

    open spec fn deep_view(&self) -> AgentView {
        self.view()
    }
}

/// A running service listener, as the broker tracks it.
#[derive(Debug)]
pub struct ServiceHandle {
    /// The service's name, which is also the listener's identity.
    pub service_name: String,
    /// Where an agent must dial to reach the service.
    pub agent_dest_address: String,
    /// The monotonic counter behind round-robin agent selection.
    pub counter: u64,
    /// The listener's inbound channel, once its `NEW_SERVICE` arrived.
    pub channel: Option<u64>,
}

/// The mathematical shadow of a service handle.
pub ghost struct ServiceView {
    pub service_name: Seq<char>,
    pub agent_dest_address: Seq<char>,
    pub counter: u64,
    pub channel: Option<u64>,
}

impl View for ServiceHandle {
    type V = ServiceView;

    open spec fn view(&self) -> ServiceView {
        ServiceView {
            service_name: self.service_name@,
            agent_dest_address: self.agent_dest_address@,
            counter: self.counter,
            channel: self.channel,
        }
    }
}

impl DeepView for ServiceHandle {
    type V = ServiceView;

    open spec fn deep_view(&self) -> ServiceView {
        self.view()
    }
}

/// A client stream waiting for the data stream its agent will open.
#[derive(Debug)]
pub struct PendingConnection {
    /// The fresh identifier that will pair the two streams.
    pub connection_id: String,
    /// The service the client connected to.
    pub service_name: String,
    /// The client stream, owned by the broker while pending.
    pub client_stream: u64,
    /// Where the client connected from.
    pub client_remote_address: String,
    /// Where the chosen agent was told to dial.
    pub agent_dest_address: String,
}

/// The mathematical shadow of a pending connection.
pub ghost struct PendingView {
    pub connection_id: Seq<char>,
    pub service_name: Seq<char>,
    pub client_stream: u64,
    pub client_remote_address: Seq<char>,
    pub agent_dest_address: Seq<char>,
}

impl View for PendingConnection {
    type V = PendingView;

    open spec fn view(&self) -> PendingView {
        PendingView {
            connection_id: self.connection_id@,
            service_name: self.service_name@,
            client_stream: self.client_stream,
            client_remote_address: self.client_remote_address@,
            agent_dest_address: self.agent_dest_address@,
        }
    }
}

impl DeepView for PendingConnection {
    type V = PendingView;

    open spec fn deep_view(&self) -> PendingView {
        self.view()
    }
}

/// What the broker asks its surroundings to do.
#[derive(Debug)]
pub enum BrokerAction {
    /// Spawn an agent session for an accepted control connection.
    SpawnAgentSession { agent_id: String, stream: u64, remote_address: String },
    /// Close this stream and log why it was refused or dropped.
    CloseStream { stream: u64 },
    /// Spawn the splice of a matched pair of streams.
    SpawnSplice { connection_id: String, client_stream: u64, agent_stream: u64 },
    /// Push a connection order to an agent session's channel.
    SendOrder { channel: u64, dest_address: String, connection_id: String },
    /// Spawn a service listener on its bind endpoint.
    SpawnServiceListener { service_name: String, bind_endpoint: String },
    /// Tell a service listener to shut down.
    SendShutdown { channel: u64 },
}

/// The mathematical shadow of a broker action.
pub ghost enum BrokerActionView {
    SpawnAgentSession { agent_id: Seq<char>, stream: u64, remote_address: Seq<char> },
    CloseStream { stream: u64 },
    SpawnSplice { connection_id: Seq<char>, client_stream: u64, agent_stream: u64 },
    SendOrder { channel: u64, dest_address: Seq<char>, connection_id: Seq<char> },
    SpawnServiceListener { service_name: Seq<char>, bind_endpoint: Seq<char> },
    SendShutdown { channel: u64 },
}

impl View for BrokerAction {
    type V = BrokerActionView;

    open spec fn view(&self) -> BrokerActionView {
        match self {
            BrokerAction::SpawnAgentSession { agent_id, stream, remote_address } => {
                BrokerActionView::SpawnAgentSession {
                    agent_id: agent_id@,
                    stream: *stream,
                    remote_address: remote_address@,
                }
            },
            BrokerAction::CloseStream { stream } => {
                BrokerActionView::CloseStream { stream: *stream }
            },
            BrokerAction::SpawnSplice { connection_id, client_stream, agent_stream } => {
                BrokerActionView::SpawnSplice {
                    connection_id: connection_id@,
                    client_stream: *client_stream,
                    agent_stream: *agent_stream,
                }
            },
            BrokerAction::SendOrder { channel, dest_address, connection_id } => {
                BrokerActionView::SendOrder {
                    channel: *channel,
                    dest_address: dest_address@,
                    connection_id: connection_id@,
                }
            },
            BrokerAction::SpawnServiceListener { service_name, bind_endpoint } => {
                BrokerActionView::SpawnServiceListener {
                    service_name: service_name@,
                    bind_endpoint: bind_endpoint@,
                }
            },
            BrokerAction::SendShutdown { channel } => {
                BrokerActionView::SendShutdown { channel: *channel }
            },
        }
    }
}

impl DeepView for BrokerAction {
    type V = BrokerActionView;

    open spec fn deep_view(&self) -> BrokerActionView {
        self.view()
    }
}

/// The registrations left after one agent is unregistered.
pub open spec fn spec_without_agent(ags: Seq<AgentView>, agent_id: Seq<char>) -> Seq<AgentView> {
    ags.filter(|a: AgentView| a.agent_id != agent_id)
}

/// Whether an agent with this identifier is registered.
pub open spec fn spec_has_agent(ags: Seq<AgentView>, agent_id: Seq<char>) -> bool {
    exists|i: int| 0 <= i < ags.len() && (#[trigger] ags[i]).agent_id == agent_id
}

/// The pending connections left after one identifier is dropped.
pub open spec fn spec_without_pending(ps: Seq<PendingView>, connection_id: Seq<char>) -> Seq<
    PendingView,
> {
    ps.filter(|p: PendingView| p.connection_id != connection_id)
}

/// Whether a pending connection with this identifier exists.
pub open spec fn spec_has_pending(ps: Seq<PendingView>, connection_id: Seq<char>) -> bool {
    exists|i: int| 0 <= i < ps.len() && (#[trigger] ps[i]).connection_id == connection_id
}

/// Whether some pending connection holds this stream handle.
pub open spec fn spec_pending_holds_stream(ps: Seq<PendingView>, stream: u64) -> bool {
    exists|i: int| 0 <= i < ps.len() && (#[trigger] ps[i]).client_stream == stream
}

/// Whether a service handle with this name exists.
pub open spec fn spec_has_service(ss: Seq<ServiceView>, name: Seq<char>) -> bool {
    exists|i: int| 0 <= i < ss.len() && (#[trigger] ss[i]).service_name == name
}

/// The service handles left after one name is dropped.
pub open spec fn spec_without_service(ss: Seq<ServiceView>, name: Seq<char>) -> Seq<ServiceView> {
    ss.filter(|s: ServiceView| s.service_name != name)
}

/// No two registrations share an agent identifier.
pub open spec fn spec_agent_ids_distinct(ags: Seq<AgentView>) -> bool {
    forall|i: int, j: int|
        0 <= i < j < ags.len() ==> (#[trigger] ags[i]).agent_id != (#[trigger] ags[j]).agent_id
}

/// No two service handles share a name.
pub open spec fn spec_service_names_distinct(ss: Seq<ServiceView>) -> bool {
    forall|i: int, j: int|
        0 <= i < j < ss.len() ==> (#[trigger] ss[i]).service_name != (
        #[trigger] ss[j]).service_name
}

/// No two pending connections share an identifier or a stream handle.
pub open spec fn spec_pending_distinct(ps: Seq<PendingView>) -> bool {
    forall|i: int, j: int|
        0 <= i < j < ps.len() ==> (#[trigger] ps[i]).connection_id != (
        #[trigger] ps[j]).connection_id && ps[i].client_stream != ps[j].client_stream
}

/// Every pending identifier came out of the generator.
pub open spec fn spec_pending_ids_issued(ps: Seq<PendingView>, issued: Set<Seq<char>>) -> bool {
    forall|i: int| 0 <= i < ps.len() ==> issued.contains((#[trigger] ps[i]).connection_id)
}

/// The broker's whole state.
pub struct Broker {
    /// The immutable set of configured services.
    pub configs: ServerConfigs,
    /// Every registered agent, in registration order.
    pub agents: Vec<AgentRegistration>,
    /// One handle per service the broker decided to listen for.
    pub services: Vec<ServiceHandle>,
    /// Client streams waiting for their agent data streams.
    pub pending: Vec<PendingConnection>,
    /// Accepted agent sessions that have not registered yet.
    pub unauth_sessions: usize,
    /// Every identifier this broker drew from the generator.
    pub ids_issued: Ghost<Set<Seq<char>>>,
}

impl Broker {
    /// The state invariant: configuration keys, agent identifiers,
    /// service names, pending identifiers and pending stream handles are
    /// each unique, and every pending identifier came from the generator.
    pub open spec fn wf(self) -> bool {
        &&& self.configs.wf()
        &&& spec_agent_ids_distinct(self.agents.deep_view())
        &&& spec_service_names_distinct(self.services.deep_view())
        &&& spec_pending_distinct(self.pending.deep_view())
        &&& spec_pending_ids_issued(self.pending.deep_view(), self.ids_issued@)
    }

    /// A fresh broker over an immutable configuration set.
    pub fn new(configs: ServerConfigs) -> (b: Broker)
        requires
            configs.wf(),
        ensures
            b.wf(),
            b.configs == configs,
            b.agents.deep_view().len() == 0,
            b.services.deep_view().len() == 0,
            b.pending.deep_view().len() == 0,
            b.unauth_sessions == 0,
            b.ids_issued@ == Set::<Seq<char>>::empty(),
    {
        Broker {
            configs,
            agents: Vec::new(),
            services: Vec::new(),
            pending: Vec::new(),
            unauth_sessions: 0,
            ids_issued: Ghost(Set::empty()),
        }
    }

    /// How many agents are registered.
    pub fn get_connected_agent_count(&self) -> (n: usize)
        ensures
            n == self.agents.deep_view().len(),
    {
        self.agents.len()
    }

    /// Everything but the agent registry and the session count is as it
    /// was.
    pub open spec fn spec_same_but_agents(pre: Broker, post: Broker) -> bool {
        &&& post.configs == pre.configs
        &&& post.services == pre.services
        &&& post.pending == pre.pending
        &&& post.ids_issued == pre.ids_issued
    }

    /// Drops the registration with this identifier, if any.
    fn remove_agent_entry(&mut self, agent_id: &String) -> (found: bool)
        requires
            old(self).wf(),
        ensures
            final(self).wf(),
            Self::spec_same_but_agents(*old(self), *final(self)),
            final(self).unauth_sessions == old(self).unauth_sessions,
            final(self).agents.deep_view() == spec_without_agent(
                old(self).agents.deep_view(),
                agent_id@,
            ),
            !spec_has_agent(final(self).agents.deep_view(), agent_id@),
            found == spec_has_agent(old(self).agents.deep_view(), agent_id@),
    {
        let ghost ags = self.agents.deep_view();
        let mut i: usize = 0;
        while i < self.agents.len()
            invariant
                old(self).wf(),
                *self == *old(self),
                i <= ags.len(),
                ags == self.agents.deep_view(),
                spec_agent_ids_distinct(ags),
                forall|j: int| 0 <= j < i ==> (#[trigger] ags[j]).agent_id != agent_id@,
            decreases ags.len() - i,
        {
            if self.agents[i].agent_id == *agent_id {
                self.agents.remove(i);
                proof {
                    assert(ags[i as int].agent_id == agent_id@);
                    assert forall|j: int| 0 <= j < ags.len() && j != i implies (
                    #[trigger] ags[j]).agent_id != agent_id@ by {
                        if j < i as int {
                            assert(ags[j].agent_id != ags[i as int].agent_id);
                        } else {
                            assert(ags[i as int].agent_id != ags[j].agent_id);
                        }
                    }
                    lemma_filter_removes_one(
                        ags,
                        |a: AgentView| a.agent_id != agent_id@,
                        i as int,
                    );
                    let r = ags.remove(i as int);
                    assert(self.agents.deep_view() =~= r);
                    assert(self.agents.deep_view() == spec_without_agent(ags, agent_id@));
                    assert forall|j: int| 0 <= j < r.len() implies (#[trigger] r[j]).agent_id
                        != agent_id@ by {
                        if j < i as int {
                            assert(r[j] == ags[j]);
                        } else {
                            assert(r[j] == ags[j + 1]);
                        }
                    }
                    assert forall|a: int, b: int| 0 <= a < b < r.len() implies (
                    #[trigger] r[a]).agent_id != (#[trigger] r[b]).agent_id by {
                        let a0 = if a < i as int {
                            a
                        } else {
                            a + 1
                        };
                        let b0 = if b < i as int {
                            b
                        } else {
                            b + 1
                        };
                        assert(r[a] == ags[a0]);
                        assert(r[b] == ags[b0]);
                        assert(ags[a0].agent_id != ags[b0].agent_id);
                    }
                }
                return true;
            }
            i = i + 1;
        }
        proof {
            lemma_filter_keeps_all(ags, |a: AgentView| a.agent_id != agent_id@);
        }
        false
    }

    /// Registers an agent under its group: a stale registration with the
    /// same identifier is dropped first, the new one is appended, and the
    /// session it came from stops counting as unauthenticated.
    pub fn register_agent(
        &mut self,
        agent_id: String,
        group_name: String,
        remote_address: String,
        channel: u64,
    )
        requires
            old(self).wf(),
        ensures
            final(self).wf(),
            Self::spec_same_but_agents(*old(self), *final(self)),
            final(self).agents.deep_view() == spec_without_agent(
                old(self).agents.deep_view(),
                agent_id@,
            ).push(
                AgentView {
                    agent_id: agent_id@,
                    group_name: group_name@,
                    remote_address: remote_address@,
                    channel,
                },
            ),
            final(self).unauth_sessions == if old(self).unauth_sessions > 0 {
                (old(self).unauth_sessions - 1) as usize
            } else {
                0usize
            },
    {
        self.remove_agent_entry(&agent_id);
        let ghost cleaned = self.agents.deep_view();
        self.agents.push(AgentRegistration { agent_id, group_name, remote_address, channel });
        if self.unauth_sessions > 0 {
            self.unauth_sessions = self.unauth_sessions - 1;
        }
        proof {
            assert(self.agents.deep_view() =~= cleaned.push(
                AgentView {
                    agent_id: agent_id@,
                    group_name: group_name@,
                    remote_address: remote_address@,
                    channel,
                },
            ));
        }
    }

    /// Unregisters an agent when its session ends. A session that never
    /// registered still stops counting as unauthenticated.
    pub fn deregister_agent(&mut self, agent_id: &String)
        requires
            old(self).wf(),
        ensures
            final(self).wf(),
            Self::spec_same_but_agents(*old(self), *final(self)),
            final(self).agents.deep_view() == spec_without_agent(
                old(self).agents.deep_view(),
                agent_id@,
            ),
            final(self).unauth_sessions == if spec_has_agent(
                old(self).agents.deep_view(),
                agent_id@,
            ) {
                old(self).unauth_sessions
            } else if old(self).unauth_sessions > 0 {
                (old(self).unauth_sessions - 1) as usize
            } else {
                0usize
            },
    {
        let found = self.remove_agent_entry(agent_id);
        if !found && self.unauth_sessions > 0 {
            self.unauth_sessions = self.unauth_sessions - 1;
        }
    }

    /// Takes in a freshly accepted control connection: over the cap of
    /// [`MAX_AGENT_CONNECTIONS`] registered and still-unauthenticated
    /// sessions together, the stream is closed unanswered; below it, a
    /// fresh agent identifier is drawn and a session is spawned.
    pub fn handle_agent_accept(&mut self, stream: u64, remote_address: String) -> (acts: Vec<
        BrokerAction,
    >)
        requires
            old(self).wf(),
        ensures
            final(self).wf(),
            Self::spec_same_but_agents(*old(self), *final(self)),
            final(self).agents == old(self).agents,
            old(self).agents.deep_view().len() + old(self).unauth_sessions
                >= MAX_AGENT_CONNECTIONS ==> {
                &&& final(self).unauth_sessions == old(self).unauth_sessions
                &&& acts.deep_view() =~= seq![BrokerActionView::CloseStream { stream }]
            },
            old(self).agents.deep_view().len() + old(self).unauth_sessions
                < MAX_AGENT_CONNECTIONS ==> {
                &&& final(self).unauth_sessions == old(self).unauth_sessions + 1
                &&& acts.deep_view().len() == 1
                &&& acts.deep_view()[0] matches BrokerActionView::SpawnAgentSession {
                    agent_id,
                    stream: s,
                    remote_address: r,
                } && s == stream && r == remote_address@ && is_guid_chars(agent_id)
            },
    {
        let mut acts: Vec<BrokerAction> = Vec::new();
        let count = self.agents.len();
        if count >= MAX_AGENT_CONNECTIONS || self.unauth_sessions >= MAX_AGENT_CONNECTIONS
            - count {
            acts.push(BrokerAction::CloseStream { stream });
            proof {
                assert(acts.deep_view() =~= seq![BrokerActionView::CloseStream { stream }]);
            }
        } else {
            let agent_id = get_rand_guid();
            self.unauth_sessions = self.unauth_sessions + 1;
            acts.push(BrokerAction::SpawnAgentSession { agent_id, stream, remote_address });
        }
        acts
    }

    /// Everything but the pending map is as it was.
    pub open spec fn spec_same_but_pending(pre: Broker, post: Broker) -> bool {
        &&& post.configs == pre.configs
        &&& post.agents == pre.agents
        &&& post.services == pre.services
        &&& post.unauth_sessions == pre.unauth_sessions
    }

    /// Takes the pending connection with this identifier out of the map,
    /// if it is there.
    fn take_pending(&mut self, connection_id: &String) -> (taken: Option<PendingConnection>)
        requires
            old(self).wf(),
        ensures
            final(self).wf(),
            Self::spec_same_but_pending(*old(self), *final(self)),
            final(self).ids_issued == old(self).ids_issued,
            final(self).pending.deep_view() == spec_without_pending(
                old(self).pending.deep_view(),
                connection_id@,
            ),
            taken is None <==> !spec_has_pending(old(self).pending.deep_view(), connection_id@),
            taken is None ==> final(self).pending == old(self).pending,
            !spec_has_pending(final(self).pending.deep_view(), connection_id@),
            forall|h: u64|
                spec_pending_holds_stream(final(self).pending.deep_view(), h)
                    ==> spec_pending_holds_stream(old(self).pending.deep_view(), h),
            taken matches Some(p) ==> p@.connection_id == connection_id@ && exists|j: int|
                0 <= j < old(self).pending.deep_view().len() && (#[trigger] old(self).pending.deep_view()[j]) == p@,
    {
        let ghost ps = self.pending.deep_view();
        let mut i: usize = 0;
        while i < self.pending.len()
            invariant
                old(self).wf(),
                *self == *old(self),
                i <= ps.len(),
                ps == self.pending.deep_view(),
                forall|j: int| 0 <= j < i ==> (#[trigger] ps[j]).connection_id != connection_id@,
            decreases ps.len() - i,
        {
            if self.pending[i].connection_id == *connection_id {
                let p = self.pending.remove(i);
                proof {
                    assert(ps[i as int].connection_id == connection_id@);
                    assert forall|j: int| 0 <= j < ps.len() && j != i implies (
                    #[trigger] ps[j]).connection_id != connection_id@ by {
                        if j < i as int {
                            assert(ps[j].connection_id != ps[i as int].connection_id);
                        } else {
                            assert(ps[i as int].connection_id != ps[j].connection_id);
                        }
                    }
                    lemma_filter_removes_one(
                        ps,
                        |p: PendingView| p.connection_id != connection_id@,
                        i as int,
                    );
                    let r = ps.remove(i as int);
                    assert(self.pending.deep_view() =~= r);
                    assert(self.pending.deep_view() == spec_without_pending(ps, connection_id@));
                    assert forall|a: int, b: int| 0 <= a < b < r.len() implies (
                    #[trigger] r[a]).connection_id != (#[trigger] r[b]).connection_id && r[a].client_stream
                        != r[b].client_stream by {
                        let a0 = if a < i as int {
                            a
                        } else {
                            a + 1
                        };
                        let b0 = if b < i as int {
                            b
                        } else {
                            b + 1
                        };
                        assert(r[a] == ps[a0]);
                        assert(r[b] == ps[b0]);
                        assert(ps[a0].connection_id != ps[b0].connection_id);
                        assert(ps[a0].client_stream != ps[b0].client_stream);
                    }
                    assert forall|j: int| 0 <= j < r.len() implies self.ids_issued@.contains(
                        (#[trigger] r[j]).connection_id,
                    ) by {
                        if j < i as int {
                            assert(r[j] == ps[j]);
                        } else {
                            assert(r[j] == ps[j + 1]);
                        }
                    }
                    assert forall|h: u64|
                        spec_pending_holds_stream(r, h) implies spec_pending_holds_stream(
                        ps,
                        h,
                    ) by {
                        let w = choose|w: int|
                            0 <= w < r.len() && (#[trigger] r[w]).client_stream == h;
                        if w < i as int {
                            assert(r[w] == ps[w]);
                            assert(ps[w].client_stream == h);
                        } else {
                            assert(r[w] == ps[w + 1]);
                            assert(ps[w + 1].client_stream == h);
                        }
                    }
                }
                return Some(p);
            }
            i = i + 1;
        }
        proof {
            lemma_filter_keeps_all(ps, |p: PendingView| p.connection_id != connection_id@);
        }
        None
    }

    /// Matches an agent's freshly opened data stream against the pending
    /// map. A known identifier takes its pending connection out of the
    /// map and pairs the two streams in a splice; an unknown one is a
    /// rendezvous miss, and the data stream is discarded.
    pub fn match_connect(&mut self, connection_id: &String, agent_stream: u64) -> (acts: Vec<
        BrokerAction,
    >)
        requires
            old(self).wf(),
            !spec_pending_holds_stream(old(self).pending.deep_view(), agent_stream),
        ensures
            final(self).wf(),
            Self::spec_same_but_pending(*old(self), *final(self)),
            final(self).ids_issued == old(self).ids_issued,
            final(self).pending.deep_view() == spec_without_pending(
                old(self).pending.deep_view(),
                connection_id@,
            ),
            !spec_pending_holds_stream(final(self).pending.deep_view(), agent_stream),
            !spec_has_pending(old(self).pending.deep_view(), connection_id@) ==> {
                &&& final(self).pending == old(self).pending
                &&& acts.deep_view() =~= seq![
                    BrokerActionView::CloseStream { stream: agent_stream },
                ]
            },
            spec_has_pending(old(self).pending.deep_view(), connection_id@) ==> exists|j: int|
                {
                    &&& 0 <= j < old(self).pending.deep_view().len()
                    &&& (#[trigger] old(self).pending.deep_view()[j]).connection_id
                        == connection_id@
                    &&& acts.deep_view() =~= seq![
                        BrokerActionView::SpawnSplice {
                            connection_id: connection_id@,
                            client_stream: old(self).pending.deep_view()[j].client_stream,
                            agent_stream,
                        },
                    ]
                    &&& !spec_pending_holds_stream(
                        final(self).pending.deep_view(),
                        old(self).pending.deep_view()[j].client_stream,
                    )
                },
    {
        let ghost old_ps = self.pending.deep_view();
        let mut acts: Vec<BrokerAction> = Vec::new();
        match self.take_pending(connection_id) {
            None => {
                acts.push(BrokerAction::CloseStream { stream: agent_stream });
                proof {
                    assert(acts.deep_view() =~= seq![
                        BrokerActionView::CloseStream { stream: agent_stream },
                    ]);
                }
            },
            Some(p) => {
                let ghost pv = p@;
                acts.push(
                    BrokerAction::SpawnSplice {
                        connection_id: p.connection_id,
                        client_stream: p.client_stream,
                        agent_stream,
                    },
                );
                proof {
                    assert(acts.deep_view() =~= seq![
                        BrokerActionView::SpawnSplice {
                            connection_id: connection_id@,
                            client_stream: pv.client_stream,
                            agent_stream,
                        },
                    ]);
                    let fin = self.pending.deep_view();
                    let j = choose|j: int| 0 <= j < old_ps.len() && (#[trigger] old_ps[j]) == pv;
                    assert forall|w: int| 0 <= w < fin.len() implies (
                    #[trigger] fin[w]).client_stream != pv.client_stream by {
                        lemma_filter_elements(
                            old_ps,
                            |p: PendingView| p.connection_id != connection_id@,
                        );
                        assert(old_ps.contains(fin[w]));
                        assert(fin[w].connection_id != connection_id@);
                        let m = choose|m: int| 0 <= m < old_ps.len() && old_ps[m] == fin[w];
                        if m == j {
                        } else if m < j {
                            assert(old_ps[m].client_stream != old_ps[j].client_stream);
                        } else {
                            assert(old_ps[j].client_stream != old_ps[m].client_stream);
                        }
                    }
                }
            },
        }
        acts
    }

    /// Drops the pending connection an agent reported it cannot serve;
    /// its client stream is closed.
    pub fn cancel_connection(&mut self, connection_id: &String) -> (acts: Vec<BrokerAction>)
        requires
            old(self).wf(),
        ensures
            final(self).wf(),
            Self::spec_same_but_pending(*old(self), *final(self)),
            final(self).ids_issued == old(self).ids_issued,
            final(self).pending.deep_view() == spec_without_pending(
                old(self).pending.deep_view(),
                connection_id@,
            ),
            !spec_has_pending(old(self).pending.deep_view(), connection_id@) ==> {
                &&& final(self).pending == old(self).pending
                &&& acts.deep_view() =~= Seq::<BrokerActionView>::empty()
            },
            spec_has_pending(old(self).pending.deep_view(), connection_id@) ==> exists|j: int|
                {
                    &&& 0 <= j < old(self).pending.deep_view().len()
                    &&& (#[trigger] old(self).pending.deep_view()[j]).connection_id
                        == connection_id@
                    &&& acts.deep_view() =~= seq![
                        BrokerActionView::CloseStream {
                            stream: old(self).pending.deep_view()[j].client_stream,
                        },
                    ]
                },
    {
        let mut acts: Vec<BrokerAction> = Vec::new();
        match self.take_pending(connection_id) {
            None => {
                proof {
                    assert(acts.deep_view() =~= Seq::<BrokerActionView>::empty());
                }
            },
            Some(p) => {
                let ghost pv = p@;
                acts.push(BrokerAction::CloseStream { stream: p.client_stream });
                proof {
                    assert(acts.deep_view() =~= seq![
                        BrokerActionView::CloseStream { stream: pv.client_stream },
                    ]);
                }
            },
        }
        acts
    }

    /// Everything but the service registry is as it was.
    pub open spec fn spec_same_but_services(pre: Broker, post: Broker) -> bool {
        &&& post.configs == pre.configs
        &&& post.agents == pre.agents
        &&& post.pending == pre.pending
        &&& post.unauth_sessions == pre.unauth_sessions
        &&& post.ids_issued == pre.ids_issued
    }

    /// Stores a started listener's inbound channel on its service handle.
    /// A listener whose handle is already gone is left to its shutdown.
    pub fn handle_new_service(&mut self, service_name: &String, channel: u64)
        requires
            old(self).wf(),
        ensures
            final(self).wf(),
            Self::spec_same_but_services(*old(self), *final(self)),
            !spec_has_service(old(self).services.deep_view(), service_name@) ==> final(self).services == old(self).services,
            spec_has_service(old(self).services.deep_view(), service_name@) ==> exists|j: int|
                {
                    &&& 0 <= j < old(self).services.deep_view().len()
                    &&& (#[trigger] old(self).services.deep_view()[j]).service_name
                        == service_name@
                    &&& final(self).services.deep_view() =~= old(self).services.deep_view().update(
                        j,
                        ServiceView {
                            service_name: old(self).services.deep_view()[j].service_name,
                            agent_dest_address: old(self).services.deep_view()[j].agent_dest_address,
                            counter: old(self).services.deep_view()[j].counter,
                            channel: Some(channel),
                        },
                    )
                },
    {
        let ghost ss = self.services.deep_view();
        let mut i: usize = 0;
        while i < self.services.len()
            invariant
                old(self).wf(),
                *self == *old(self),
                i <= ss.len(),
                ss == self.services.deep_view(),
                forall|j: int| 0 <= j < i ==> (#[trigger] ss[j]).service_name != service_name@,
            decreases ss.len() - i,
        {
            if self.services[i].service_name == *service_name {
                let mut h = self.services.remove(i);
                h.channel = Some(channel);
                self.services.insert(i, h);
                proof {
                    let updated = ss.update(
                        i as int,
                        ServiceView {
                            service_name: ss[i as int].service_name,
                            agent_dest_address: ss[i as int].agent_dest_address,
                            counter: ss[i as int].counter,
                            channel: Some(channel),
                        },
                    );
                    assert(self.services.deep_view() =~= updated);
                    assert forall|a: int, b: int| 0 <= a < b < updated.len() implies (
                    #[trigger] updated[a]).service_name != (
                    #[trigger] updated[b]).service_name by {
                        assert(updated[a].service_name == ss[a].service_name);
                        assert(updated[b].service_name == ss[b].service_name);
                        assert(ss[a].service_name != ss[b].service_name);
                    }
                }
                return ;
            }
            i = i + 1;
        }
    }

    /// Where the handle of this service sits, if the broker has one.
    fn find_service_index(&self, service_name: &String) -> (r: Option<usize>)
        ensures
            r matches Some(k) ==> 0 <= k < self.services.deep_view().len() && (
            #[trigger] self.services.deep_view()[k as int]).service_name == service_name@
                && forall|j: int|
                0 <= j < k ==> (#[trigger] self.services.deep_view()[j]).service_name
                    != service_name@,
            r is None ==> !spec_has_service(self.services.deep_view(), service_name@),
            r is None ==> forall|j: int|
                0 <= j < self.services.deep_view().len() ==> (
                #[trigger] self.services.deep_view()[j]).service_name != service_name@,
    {
        let ghost ss = self.services.deep_view();
        let mut i: usize = 0;
        while i < self.services.len()
            invariant
                i <= ss.len(),
                ss == self.services.deep_view(),
                forall|j: int| 0 <= j < i ==> (#[trigger] ss[j]).service_name != service_name@,
            decreases ss.len() - i,
        {
            if self.services[i].service_name == *service_name {
                return Some(i);
            }
            i = i + 1;
        }
        None
    }

    /// The agents eligible for a service, in registration order: those of
    /// every group, and those of a group the service is configured for.
    pub fn candidate_agents(&self, service_name: &String) -> (cands: Vec<AgentRegistration>)
        ensures
            cands.deep_view() == spec_candidates(
                self.agents.deep_view(),
                self.configs.items@,
                service_name@,
            ),
    {
        let ghost cfgs = self.configs.items@;
        let ghost ags = self.agents.deep_view();
        let names = get_service_group_names(service_name, &self.configs);
        let mut cands: Vec<AgentRegistration> = Vec::new();
        let mut i: usize = 0;
        proof {
            reveal(Seq::filter);
            assert(ags.take(0).filter(|a: AgentView| spec_is_candidate(cfgs, service_name@, a))
                =~= Seq::<AgentView>::empty());
        }
        while i < self.agents.len()
            invariant
                i <= ags.len(),
                cfgs == self.configs.items@,
                ags == self.agents.deep_view(),
                names.deep_view() == spec_service_group_names(cfgs, service_name@),
                cands.deep_view() == ags.take(i as int).filter(
                    |a: AgentView| spec_is_candidate(cfgs, service_name@, a),
                ),
            decreases ags.len() - i,
        {
            let ghost prev = cands.deep_view();
            let ghost a = ags[i as int];
            let is_cand = self.agents[i].group_name.as_str().is_empty() || names_contain(
                &names,
                &self.agents[i].group_name,
            );
            proof {
                lemma_push_contains(
                    spec_groups_of(cfgs, service_name@),
                    Seq::<char>::empty(),
                    a.group_name,
                );
                if a.group_name.len() == 0 {
                    assert(a.group_name =~= Seq::<char>::empty());
                }
                assert(is_cand == spec_is_candidate(cfgs, service_name@, a));
            }
            if is_cand {
                let reg = self.agents[i].clone();
                cands.push(reg);
                proof {
                    assert(cands.deep_view() =~= prev.push(a));
                }
            }
            i = i + 1;
            proof {
                reveal(Seq::filter);
                let p = |a: AgentView| spec_is_candidate(cfgs, service_name@, a);
                assert(ags.take(i as int).drop_last() =~= ags.take(i as int - 1));
                assert(ags.take(i as int).last() == a);
                assert(cands.deep_view() == ags.take(i as int).filter(p));
            }
        }
        proof {
            assert(ags.take(ags.len() as int) =~= ags);
        }
        cands
    }

    /// The next value of a selection counter.
    pub open spec fn spec_next_counter(c: u64) -> u64 {
        if c == u64::MAX {
            0
        } else {
            (c + 1) as u64
        }
    }

    /// Takes in a client connection accepted by a service listener. An
    /// unknown service drops out silently; a service with no eligible
    /// agent drops the client stream; otherwise a fresh connection
    /// identifier is drawn, the client stream is parked under it, the
    /// candidate at the service counter's round-robin position is chosen,
    /// the counter moves on by one, and the chosen agent's session is
    /// ordered to open the tunnel.
    pub fn handle_client_connect(
        &mut self,
        service_name: &String,
        client_stream: u64,
        client_remote_address: &String,
    ) -> (acts: Vec<BrokerAction>)
        requires
            old(self).wf(),
            !spec_pending_holds_stream(old(self).pending.deep_view(), client_stream),
        ensures
            final(self).wf(),
            final(self).configs == old(self).configs,
            final(self).agents == old(self).agents,
            final(self).unauth_sessions == old(self).unauth_sessions,
            old(self).ids_issued@.subset_of(final(self).ids_issued@),
            !spec_has_service(old(self).services.deep_view(), service_name@) ==> {
                &&& *final(self) == *old(self)
                &&& acts.deep_view() =~= Seq::<BrokerActionView>::empty()
            },
            spec_has_service(old(self).services.deep_view(), service_name@) && spec_candidates(
                old(self).agents.deep_view(),
                old(self).configs.items@,
                service_name@,
            ).len() == 0 ==> {
                &&& *final(self) == *old(self)
                &&& acts.deep_view() =~= seq![
                    BrokerActionView::CloseStream { stream: client_stream },
                ]
            },
            spec_has_service(old(self).services.deep_view(), service_name@) && spec_candidates(
                old(self).agents.deep_view(),
                old(self).configs.items@,
                service_name@,
            ).len() > 0 ==> exists|j: int|
                #![trigger old(self).services.deep_view()[j]]
                {
                    let ss = old(self).services.deep_view();
                    let cands = spec_candidates(
                        old(self).agents.deep_view(),
                        old(self).configs.items@,
                        service_name@,
                    );
                    let chosen = cands[(ss[j].counter as int) % (cands.len() as int)];
                    &&& 0 <= j < ss.len()
                    &&& ss[j].service_name == service_name@
                    &&& final(self).services.deep_view() =~= ss.update(
                        j,
                        ServiceView {
                            service_name: ss[j].service_name,
                            agent_dest_address: ss[j].agent_dest_address,
                            counter: Self::spec_next_counter(ss[j].counter),
                            channel: ss[j].channel,
                        },
                    )
                    &&& acts.deep_view().len() == 1
                    &&& acts.deep_view()[0] matches BrokerActionView::SendOrder {
                        channel,
                        dest_address,
                        connection_id,
                    } && channel == chosen.channel && dest_address == ss[j].agent_dest_address
                        && is_guid_chars(connection_id) && final(self).ids_issued@ == old(
                        self,
                    ).ids_issued@.insert(connection_id) && final(self).pending.deep_view()
                        =~= spec_without_pending(
                        old(self).pending.deep_view(),
                        connection_id,
                    ).push(
                        PendingView {
                            connection_id,
                            service_name: service_name@,
                            client_stream,
                            client_remote_address: client_remote_address@,
                            agent_dest_address: ss[j].agent_dest_address,
                        },
                    )
                },
    {
        let ghost ss = self.services.deep_view();
        let k: usize;
        match self.find_service_index(service_name) {
            None => {
                return Vec::new();
            },
            Some(found) => {
                k = found;
            },
        }
        let candidates = self.candidate_agents(service_name);
        let ghost cands = candidates.deep_view();
        let mut acts: Vec<BrokerAction> = Vec::new();
        if candidates.len() == 0 {
            acts.push(BrokerAction::CloseStream { stream: client_stream });
            proof {
                assert(acts.deep_view() =~= seq![
                    BrokerActionView::CloseStream { stream: client_stream },
                ]);
            }
            return acts;
        }
        // Fresh identifier; park the client stream under it.
        let connection_id = get_rand_guid();
        proof {
            self.ids_issued@ = self.ids_issued@.insert(connection_id@);
        }
        self.take_pending(&connection_id);
        let ghost cleaned = self.pending.deep_view();
        let dest = self.services[k].agent_dest_address.clone();
        self.pending.push(
            PendingConnection {
                connection_id: connection_id.clone(),
                service_name: service_name.clone(),
                client_stream,
                client_remote_address: client_remote_address.clone(),
                agent_dest_address: dest.clone(),
            },
        );
        // Round-robin choice, then move the counter on.
        let counter = self.services[k].counter;
        let idx = (counter % (candidates.len() as u64)) as usize;
        let chosen_channel = candidates[idx].channel;
        let mut h = self.services.remove(k);
        h.counter = if h.counter == u64::MAX {
            0
        } else {
            h.counter + 1
        };
        self.services.insert(k, h);
        acts.push(
            BrokerAction::SendOrder {
                channel: chosen_channel,
                dest_address: dest,
                connection_id,
            },
        );
        proof {
            let pv = PendingView {
                connection_id: acts.deep_view()[0]->SendOrder_connection_id,
                service_name: service_name@,
                client_stream,
                client_remote_address: client_remote_address@,
                agent_dest_address: ss[k as int].agent_dest_address,
            };
            assert(self.pending.deep_view() =~= cleaned.push(pv));
            assert(self.services.deep_view() =~= ss.update(
                k as int,
                ServiceView {
                    service_name: ss[k as int].service_name,
                    agent_dest_address: ss[k as int].agent_dest_address,
                    counter: Self::spec_next_counter(ss[k as int].counter),
                    channel: ss[k as int].channel,
                },
            ));
            assert forall|a: int, b: int|
                0 <= a < b < self.services.deep_view().len() implies (
            #[trigger] self.services.deep_view()[a]).service_name != (
            #[trigger] self.services.deep_view()[b]).service_name by {
                assert(self.services.deep_view()[a].service_name == ss[a].service_name);
                assert(self.services.deep_view()[b].service_name == ss[b].service_name);
                assert(ss[a].service_name != ss[b].service_name);
            }
            assert(spec_pending_distinct(cleaned));
            assert(!spec_has_pending(cleaned, connection_id@));
            assert(!spec_pending_holds_stream(cleaned, client_stream));
            assert forall|a: int, b: int|
                0 <= a < b < self.pending.deep_view().len() implies (
            #[trigger] self.pending.deep_view()[a]).connection_id != (
            #[trigger] self.pending.deep_view()[b]).connection_id
                && self.pending.deep_view()[a].client_stream
                != self.pending.deep_view()[b].client_stream by {
                if b < cleaned.len() {
                } else {
                    assert(self.pending.deep_view()[b] == pv);
                    assert(self.pending.deep_view()[a] == cleaned[a]);
                }
            }
            assert forall|j: int|
                0 <= j < self.pending.deep_view().len() implies self.ids_issued@.contains(
                (#[trigger] self.pending.deep_view()[j]).connection_id,
            ) by {
                if j < cleaned.len() {
                    assert(self.pending.deep_view()[j] == cleaned[j]);
                } else {
                    assert(self.pending.deep_view()[j] == pv);
                }
            }
        }
        acts
    }

    /// Whether some registered agent can serve a service of this group.
    fn has_supporting_agent(&self, group_name: &String) -> (r: bool)
        ensures
            r == spec_supported(self.agents.deep_view(), group_name@),
    {
        let ghost ags = self.agents.deep_view();
        let mut i: usize = 0;
        while i < self.agents.len()
            invariant
                i <= ags.len(),
                ags == self.agents.deep_view(),
                forall|j: int|
                    0 <= j < i ==> !((#[trigger] ags[j]).group_name.len() == 0 || ags[j].group_name
                        == group_name@),
            decreases ags.len() - i,
        {
            if self.agents[i].group_name.as_str().is_empty() || self.agents[i].group_name
                == *group_name {
                proof {
                    assert(ags[i as int] == self.agents@[i as int]@);
                    assert(ags[i as int].group_name.len() == 0 || ags[i as int].group_name
                        == group_name@);
                }
                return true;
            }
            i = i + 1;
        }
        false
    }

    /// Reconciles services against agent availability: every configured
    /// service with at least one eligible agent gets a handle and a
    /// listener if it has none; every one without loses its handle, and
    /// its listener is told to shut down.
    pub fn reconcile(&mut self) -> (acts: Vec<BrokerAction>)
        requires
            old(self).wf(),
        ensures
            final(self).wf(),
            Self::spec_same_but_services(*old(self), *final(self)),
            final(self).services.deep_view() == spec_reconcile(
                old(self).services.deep_view(),
                old(self).agents.deep_view(),
                old(self).configs.items@,
            ).services,
            acts.deep_view() == spec_reconcile(
                old(self).services.deep_view(),
                old(self).agents.deep_view(),
                old(self).configs.items@,
            ).actions,
    {
        let ghost ss0 = self.services.deep_view();
        let ghost ags = self.agents.deep_view();
        let ghost cfgs = self.configs.items@;
        let ghost goal = spec_reconcile(ss0, ags, cfgs);
        let mut acts: Vec<BrokerAction> = Vec::new();
        let mut i: usize = 0;
        proof {
            assert(cfgs.skip(0) =~= cfgs);
            assert(acts.deep_view() =~= Seq::<BrokerActionView>::empty());
            assert(Seq::<BrokerActionView>::empty() + spec_reconcile(ss0, ags, cfgs).actions
                =~= spec_reconcile(ss0, ags, cfgs).actions);
        }
        while i < self.configs.items.len()
            invariant
                old(self).wf(),
                i <= cfgs.len(),
                cfgs == self.configs.items@,
                ags == self.agents.deep_view(),
                goal == spec_reconcile(ss0, ags, cfgs),
                Self::spec_same_but_services(*old(self), *self),
                spec_service_names_distinct(self.services.deep_view()),
                goal.services == spec_reconcile(
                    self.services.deep_view(),
                    ags,
                    cfgs.skip(i as int),
                ).services,
                goal.actions == acts.deep_view() + spec_reconcile(
                    self.services.deep_view(),
                    ags,
                    cfgs.skip(i as int),
                ).actions,
            decreases cfgs.len() - i,
        {
            let ghost ss_cur = self.services.deep_view();
            let ghost acts_prev = acts.deep_view();
            let ghost step = spec_reconcile_one(ss_cur, ags, cfgs[i as int]);
            let ghost rest = spec_reconcile(step.services, ags, cfgs.skip(i as int + 1));
            proof {
                assert(cfgs.skip(i as int)[0] == cfgs[i as int]);
                assert(cfgs.skip(i as int).drop_first() =~= cfgs.skip(i as int + 1));
                assert(spec_reconcile(ss_cur, ags, cfgs.skip(i as int)).services
                    == rest.services);
                assert(spec_reconcile(ss_cur, ags, cfgs.skip(i as int)).actions == step.actions
                    + rest.actions);
            }
            let supported = self.has_supporting_agent(&self.configs.items[i].agent_group_name);
            let at = self.find_service_index(&self.configs.items[i].service_name);
            proof {
                match at {
                    Some(k) => {
                        lemma_find_service_at(
                            ss_cur,
                            cfgs[i as int].service_name@,
                            k as int,
                        );
                    },
                    None => {
                        lemma_find_service_none(ss_cur, cfgs[i as int].service_name@);
                    },
                }
            }
            if supported {
                if at.is_none() {
                    self.services.push(
                        ServiceHandle {
                            service_name: self.configs.items[i].service_name.clone(),
                            agent_dest_address: self.configs.items[
                                i
                            ].agent_service_endpoint.clone(),
                            counter: 1,
                            channel: None,
                        },
                    );
                    acts.push(
                        BrokerAction::SpawnServiceListener {
                            service_name: self.configs.items[i].service_name.clone(),
                            bind_endpoint: self.configs.items[i].server_bind_endpoint.clone(),
                        },
                    );
                    proof {
                        assert(self.services.deep_view() =~= step.services);
                        assert(acts.deep_view() =~= acts_prev + step.actions);
                        assert forall|a: int, b: int|
                            0 <= a < b < self.services.deep_view().len() implies (
                        #[trigger] self.services.deep_view()[a]).service_name != (
                        #[trigger] self.services.deep_view()[b]).service_name by {
                            if b < ss_cur.len() {
                                assert(self.services.deep_view()[a] == ss_cur[a]);
                                assert(self.services.deep_view()[b] == ss_cur[b]);
                            } else {
                                assert(self.services.deep_view()[a] == ss_cur[a]);
                                assert(ss_cur[a].service_name != cfgs[i as int].service_name@);
                            }
                        }
                    }
                } else {
                    proof {
                        assert(self.services.deep_view() == step.services);
                        assert(step.actions =~= Seq::<BrokerActionView>::empty());
                        assert(acts.deep_view() =~= acts_prev + step.actions);
                    }
                }
            } else {
                match at {
                    Some(k) => {
                        let h = self.services.remove(k);
                        match h.channel {
                            Some(ch) => {
                                acts.push(BrokerAction::SendShutdown { channel: ch });
                                proof {
                                    assert(acts.deep_view() =~= acts_prev + step.actions);
                                }
                            },
                            None => {
                                proof {
                                    assert(step.actions =~= Seq::<BrokerActionView>::empty());
                                    assert(acts.deep_view() =~= acts_prev + step.actions);
                                }
                            },
                        }
                        proof {
                            let r = ss_cur.remove(k as int);
                            assert(self.services.deep_view() =~= r);
                            assert forall|a: int, b: int| 0 <= a < b < r.len() implies (
                            #[trigger] r[a]).service_name != (
                            #[trigger] r[b]).service_name by {
                                let a0 = if a < k as int {
                                    a
                                } else {
                                    a + 1
                                };
                                let b0 = if b < k as int {
                                    b
                                } else {
                                    b + 1
                                };
                                assert(r[a] == ss_cur[a0]);
                                assert(r[b] == ss_cur[b0]);
                                assert(ss_cur[a0].service_name != ss_cur[b0].service_name);
                            }
                        }
                    },
                    None => {
                        proof {
                            assert(self.services.deep_view() == step.services);
                            assert(step.actions =~= Seq::<BrokerActionView>::empty());
                            assert(acts.deep_view() =~= acts_prev + step.actions);
                        }
                    },
                }
            }
            i = i + 1;
            proof {
                assert(self.services.deep_view() == step.services);
                assert(acts.deep_view() =~= acts_prev + step.actions);
                assert(goal.actions =~= acts_prev + (step.actions + rest.actions));
                assert(acts_prev + (step.actions + rest.actions) =~= (acts_prev + step.actions)
                    + rest.actions);
                assert(goal.actions == acts.deep_view() + spec_reconcile(
                    self.services.deep_view(),
                    ags,
                    cfgs.skip(i as int),
                ).actions);
            }
        }
        proof {
            assert(cfgs.skip(cfgs.len() as int) =~= Seq::<ServerConfig>::empty());
            assert(acts.deep_view() + Seq::<BrokerActionView>::empty() =~= acts.deep_view());
        }
        acts
    }

    /// Forgets a service listener that ended.
    pub fn deregister_service(&mut self, service_name: &String)
        requires
            old(self).wf(),
        ensures
            final(self).wf(),
            Self::spec_same_but_services(*old(self), *final(self)),
            final(self).services.deep_view() == spec_without_service(
                old(self).services.deep_view(),
                service_name@,
            ),
    {
        let ghost ss = self.services.deep_view();
        let mut i: usize = 0;
        while i < self.services.len()
            invariant
                old(self).wf(),
                *self == *old(self),
                i <= ss.len(),
                ss == self.services.deep_view(),
                forall|j: int| 0 <= j < i ==> (#[trigger] ss[j]).service_name != service_name@,
            decreases ss.len() - i,
        {
            if self.services[i].service_name == *service_name {
                self.services.remove(i);
                proof {
                    assert(ss[i as int].service_name == service_name@);
                    assert forall|j: int| 0 <= j < ss.len() && j != i implies (
                    #[trigger] ss[j]).service_name != service_name@ by {
                        if j < i as int {
                            assert(ss[j].service_name != ss[i as int].service_name);
                        } else {
                            assert(ss[i as int].service_name != ss[j].service_name);
                        }
                    }
                    lemma_filter_removes_one(
                        ss,
                        |s: ServiceView| s.service_name != service_name@,
                        i as int,
                    );
                    let r = ss.remove(i as int);
                    assert(self.services.deep_view() =~= r);
                    assert forall|a: int, b: int| 0 <= a < b < r.len() implies (
                    #[trigger] r[a]).service_name != (#[trigger] r[b]).service_name by {
                        let a0 = if a < i as int {
                            a
                        } else {
                            a + 1
                        };
                        let b0 = if b < i as int {
                            b
                        } else {
                            b + 1
                        };
                        assert(r[a] == ss[a0]);
                        assert(r[b] == ss[b0]);
                        assert(ss[a0].service_name != ss[b0].service_name);
                    }
                }
                return ;
            }
            i = i + 1;
        }
        proof {
            lemma_filter_keeps_all(ss, |s: ServiceView| s.service_name != service_name@);
        }
    }
}

/// The non-empty group names configured for a service, in configuration
/// order.
pub open spec fn spec_groups_of(cfgs: Seq<ServerConfig>, service: Seq<char>) -> Seq<Seq<char>>
    decreases cfgs.len(),
{
    if cfgs.len() == 0 {
        Seq::empty()
    } else {
        let head: Seq<Seq<char>> = if cfgs[0].service_name@ == service
            && cfgs[0].agent_group_name@.len() != 0 {
            seq![cfgs[0].agent_group_name@]
        } else {
            Seq::empty()
        };
        head + spec_groups_of(cfgs.drop_first(), service)
    }
}

/// The group names whose agents may serve a service: its configured
/// groups, and the empty name that stands for agents of every group.
pub open spec fn spec_service_group_names(cfgs: Seq<ServerConfig>, service: Seq<char>) -> Seq<
    Seq<char>,
> {
    spec_groups_of(cfgs, service).push(Seq::empty())
}

/// Whether this agent may serve the service: it belongs to every group,
/// or to one the service is configured for.
pub open spec fn spec_is_candidate(
    cfgs: Seq<ServerConfig>,
    service: Seq<char>,
    a: AgentView,
) -> bool {
    a.group_name.len() == 0 || spec_groups_of(cfgs, service).contains(a.group_name)
}

/// The agents eligible for a service, in registration order.
pub open spec fn spec_candidates(
    ags: Seq<AgentView>,
    cfgs: Seq<ServerConfig>,
    service: Seq<char>,
) -> Seq<AgentView> {
    ags.filter(|a: AgentView| spec_is_candidate(cfgs, service, a))
}

/// The group names whose agents may serve this service.
pub fn get_service_group_names(service_name: &String, services: &ServerConfigs) -> (names: Vec<
    String,
>)
    ensures
        names.deep_view() == spec_service_group_names(services.items@, service_name@),
{
    let ghost cfgs = services.items@;
    let mut names: Vec<String> = Vec::new();
    let mut i: usize = 0;
    proof {
        assert(cfgs.skip(0) =~= cfgs);
    }
    while i < services.items.len()
        invariant
            i <= cfgs.len(),
            cfgs == services.items@,
            spec_groups_of(cfgs, service_name@) == names.deep_view() + spec_groups_of(
                cfgs.skip(i as int),
                service_name@,
            ),
        decreases cfgs.len() - i,
    {
        let ghost prev = names.deep_view();
        proof {
            assert(cfgs.skip(i as int)[0] == cfgs[i as int]);
            assert(cfgs.skip(i as int).drop_first() =~= cfgs.skip(i as int + 1));
        }
        if services.items[i].service_name == *service_name && !services.items[
            i
        ].agent_group_name.as_str().is_empty() {
            names.push(services.items[i].agent_group_name.clone());
            proof {
                assert(names.deep_view() =~= prev.push(cfgs[i as int].agent_group_name@));
                assert(prev + (seq![cfgs[i as int].agent_group_name@] + spec_groups_of(
                    cfgs.skip(i as int + 1),
                    service_name@,
                )) =~= prev.push(cfgs[i as int].agent_group_name@) + spec_groups_of(
                    cfgs.skip(i as int + 1),
                    service_name@,
                ));
            }
        }
        i = i + 1;
    }
    proof {
        assert(cfgs.skip(cfgs.len() as int) =~= Seq::<ServerConfig>::empty());
        assert(names.deep_view() =~= spec_groups_of(cfgs, service_name@));
    }
    let ghost groups = names.deep_view();
    names.push(String::new());
    proof {
        assert(names.deep_view() =~= groups.push(Seq::<char>::empty()));
    }
    names
}

/// Whether one of the names matches.
fn names_contain(names: &Vec<String>, group: &String) -> (r: bool)
    ensures
        r == names.deep_view().contains(group@),
{
    let mut i: usize = 0;
    while i < names.len()
        invariant
            i <= names.deep_view().len(),
            names.deep_view().len() == names@.len(),
            forall|j: int| 0 <= j < i ==> (#[trigger] names.deep_view()[j]) != group@,
        decreases names@.len() - i,
    {
        if names[i] == *group {
            proof {
                assert(names.deep_view()[i as int] == group@);
            }
            return true;
        }
        i = i + 1;
    }
    false
}

/// Whether some registered agent can serve a service of this group: one
/// of the empty group serves everything, one of the same group serves it
/// too.
pub open spec fn spec_supported(ags: Seq<AgentView>, group: Seq<char>) -> bool {
    exists|i: int|
        0 <= i < ags.len() && ((#[trigger] ags[i]).group_name.len() == 0 || ags[i].group_name
            == group)
}

/// The position of the first service handle with this name, or `-1`.
pub open spec fn spec_find_service(ss: Seq<ServiceView>, name: Seq<char>) -> int
    decreases ss.len(),
{
    if ss.len() == 0 {
        -1
    } else if ss[0].service_name == name {
        0
    } else {
        let r = spec_find_service(ss.drop_first(), name);
        if r < 0 {
            -1
        } else {
            r + 1
        }
    }
}

/// `spec_find_service` finds exactly the first match.
pub proof fn lemma_find_service_at(ss: Seq<ServiceView>, name: Seq<char>, k: int)
    requires
        0 <= k < ss.len(),
        ss[k].service_name == name,
        forall|j: int| 0 <= j < k ==> (#[trigger] ss[j]).service_name != name,
    ensures
        spec_find_service(ss, name) == k,
    decreases k,
{
    if k > 0 {
        assert(forall|j: int|
            0 <= j < k - 1 ==> (#[trigger] ss.drop_first()[j]).service_name == ss[j
                + 1].service_name);
        lemma_find_service_at(ss.drop_first(), name, k - 1);
    }
}

/// `spec_find_service` misses only when nothing matches.
pub proof fn lemma_find_service_none(ss: Seq<ServiceView>, name: Seq<char>)
    requires
        forall|j: int| 0 <= j < ss.len() ==> (#[trigger] ss[j]).service_name != name,
    ensures
        spec_find_service(ss, name) == -1,
    decreases ss.len(),
{
    if ss.len() > 0 {
        assert(forall|j: int|
            0 <= j < ss.drop_first().len() ==> (#[trigger] ss.drop_first()[j]).service_name
                == ss[j + 1].service_name);
        lemma_find_service_none(ss.drop_first(), name);
    }
}

/// What `spec_find_service` promises: a position inside the sequence that
/// carries the name, or `-1` when nothing does.
pub proof fn lemma_find_service_props(ss: Seq<ServiceView>, name: Seq<char>)
    ensures
        -1 <= spec_find_service(ss, name) < ss.len(),
        spec_find_service(ss, name) >= 0 ==> ss[spec_find_service(ss, name)].service_name
            == name,
        spec_find_service(ss, name) == -1 ==> forall|j: int|
            0 <= j < ss.len() ==> (#[trigger] ss[j]).service_name != name,
    decreases ss.len(),
{
    if ss.len() > 0 && ss[0].service_name != name {
        lemma_find_service_props(ss.drop_first(), name);
        if spec_find_service(ss, name) == -1 {
            assert forall|j: int| 0 <= j < ss.len() implies (#[trigger] ss[j]).service_name
                != name by {
                if j > 0 {
                    assert(ss.drop_first()[j - 1] == ss[j]);
                    assert(ss.drop_first()[j - 1].service_name != name);
                }
            }
        }
    }
}

/// What one reconciliation pass leaves behind.
pub ghost struct ReconcileOutcome {
    pub services: Seq<ServiceView>,
    pub actions: Seq<BrokerActionView>,
}

/// What reconciling one configuration does: a supported service without a
/// listener gains a fresh handle and a listener is spawned; an
/// unsupported service loses its handle, and its listener, if it ever
/// registered its channel, is told to shut down.
pub open spec fn spec_reconcile_one(
    ss: Seq<ServiceView>,
    ags: Seq<AgentView>,
    c: ServerConfig,
) -> ReconcileOutcome {
    let k = spec_find_service(ss, c.service_name@);
    if spec_supported(ags, c.agent_group_name@) {
        if k >= 0 {
            ReconcileOutcome { services: ss, actions: Seq::empty() }
        } else {
            ReconcileOutcome {
                services: ss.push(
                    ServiceView {
                        service_name: c.service_name@,
                        agent_dest_address: c.agent_service_endpoint@,
                        counter: 1,
                        channel: None,
                    },
                ),
                actions: seq![
                    BrokerActionView::SpawnServiceListener {
                        service_name: c.service_name@,
                        bind_endpoint: c.server_bind_endpoint@,
                    },
                ],
            }
        }
    } else {
        if k >= 0 {
            ReconcileOutcome {
                services: ss.remove(k),
                actions: match ss[k].channel {
                    Some(ch) => seq![BrokerActionView::SendShutdown { channel: ch }],
                    None => Seq::empty(),
                },
            }
        } else {
            ReconcileOutcome { services: ss, actions: Seq::empty() }
        }
    }
}

/// What reconciling every configuration in order does.
pub open spec fn spec_reconcile(
    ss: Seq<ServiceView>,
    ags: Seq<AgentView>,
    cfgs: Seq<ServerConfig>,
) -> ReconcileOutcome
    decreases cfgs.len(),
{
    if cfgs.len() == 0 {
        ReconcileOutcome { services: ss, actions: Seq::empty() }
    } else {
        let first = spec_reconcile_one(ss, ags, cfgs[0]);
        let rest = spec_reconcile(first.services, ags, cfgs.drop_first());
        ReconcileOutcome { services: rest.services, actions: first.actions + rest.actions }
    }
}

/// What it means for a sequence to gain one element at its end.
proof fn lemma_push_contains<A>(s: Seq<A>, x: A, y: A)
    ensures
        s.push(x).contains(y) <==> (s.contains(y) || x == y),
{
    if s.push(x).contains(y) {
        let k = choose|k: int| 0 <= k < s.push(x).len() && s.push(x)[k] == y;
        if k < s.len() {
            assert(s[k] == y);
        }
    }
    if s.contains(y) {
        let k = choose|k: int| 0 <= k < s.len() && s[k] == y;
        assert(s.push(x)[k] == y);
    }
    if x == y {
        assert(s.push(x)[s.len() as int] == y);
    }
}

/// Nothing passes a filter that keeps everything.
proof fn lemma_filter_keeps_all<A>(s: Seq<A>, pred: spec_fn(A) -> bool)
    requires
        forall|j: int| 0 <= j < s.len() ==> pred(#[trigger] s[j]),
    ensures
        s.filter(pred) == s,
    decreases s.len(),
{
    reveal(Seq::filter);
    if s.len() > 0 {
        lemma_filter_keeps_all(s.drop_last(), pred);
        assert(s.drop_last().push(s.last()) =~= s);
        assert(s.filter(pred) =~= s);
    }
}

/// Whatever a filter keeps came out of the sequence it was cut from, and passes
/// the filter.
proof fn lemma_filter_elements<A>(s: Seq<A>, pred: spec_fn(A) -> bool)
    ensures
        forall|k: int|
            0 <= k < s.filter(pred).len() ==> s.contains(#[trigger] s.filter(pred)[k]) && pred(
                s.filter(pred)[k],
            ),
    decreases s.len(),
{
    reveal(Seq::filter);
    if s.len() > 0 {
        lemma_filter_elements(s.drop_last(), pred);
        assert forall|k: int|
            0 <= k < s.filter(pred).len() implies s.contains(#[trigger] s.filter(pred)[k])
            && pred(s.filter(pred)[k]) by {
            if k < s.drop_last().filter(pred).len() {
                assert(s.filter(pred)[k] == s.drop_last().filter(pred)[k]);
                assert(s.drop_last().contains(s.drop_last().filter(pred)[k]));
                let w = choose|w: int|
                    0 <= w < s.drop_last().len() && s.drop_last()[w] == s.drop_last().filter(
                        pred,
                    )[k];
                assert(s[w] == s.filter(pred)[k]);
            } else {
                assert(s.filter(pred)[k] == s.last());
                assert(s[s.len() - 1] == s.last());
            }
        }
    }
}

/// A filter that rejects exactly one element removes exactly it.
proof fn lemma_filter_removes_one<A>(s: Seq<A>, pred: spec_fn(A) -> bool, k: int)
    requires
        0 <= k < s.len(),
        !pred(s[k]),
        forall|j: int| 0 <= j < s.len() && j != k ==> pred(#[trigger] s[j]),
    ensures
        s.filter(pred) == s.remove(k),
    decreases s.len(),
{
    reveal(Seq::filter);
    if k == s.len() - 1 {
        lemma_filter_keeps_all(s.drop_last(), pred);
        assert(s.filter(pred) =~= s.remove(k));
    } else {
        lemma_filter_removes_one(s.drop_last(), pred, k);
        assert(s.drop_last().remove(k).push(s.last()) =~= s.remove(k));
        assert(s.filter(pred) =~= s.remove(k));
    }
}

/// The derived bucket of a group: the registered agents that belong to it.
pub open spec fn spec_bucket(ags: Seq<AgentView>, group: Seq<char>) -> Seq<AgentView> {
    ags.filter(|a: AgentView| a.group_name == group)
}

/// What reconciling one configuration promises: the handles stay unique,
/// other services keep or lose nothing, and afterwards the configured
/// service has a handle exactly when some registered agent supports it.
proof fn lemma_reconcile_one_props(ss: Seq<ServiceView>, ags: Seq<AgentView>, c: ServerConfig)
    requires
        spec_service_names_distinct(ss),
    ensures
        spec_service_names_distinct(spec_reconcile_one(ss, ags, c).services),
        spec_has_service(spec_reconcile_one(ss, ags, c).services, c.service_name@)
            == spec_supported(ags, c.agent_group_name@),
        forall|n: Seq<char>|
            n != c.service_name@ ==> #[trigger] spec_has_service(
                spec_reconcile_one(ss, ags, c).services,
                n,
            ) == spec_has_service(ss, n),
{
    let name = c.service_name@;
    let k = spec_find_service(ss, name);
    lemma_find_service_props(ss, name);
    let out = spec_reconcile_one(ss, ags, c).services;
    if spec_supported(ags, c.agent_group_name@) {
        if k >= 0 {
            assert(spec_has_service(out, name));
        } else {
            assert(out[ss.len() as int].service_name == name);
            assert(spec_has_service(out, name));
            assert forall|a: int, b: int| 0 <= a < b < out.len() implies (
            #[trigger] out[a]).service_name != (#[trigger] out[b]).service_name by {
                if b < ss.len() {
                    assert(out[a] == ss[a]);
                    assert(out[b] == ss[b]);
                } else {
                    assert(out[a] == ss[a]);
                    assert(ss[a].service_name != name);
                }
            }
            assert forall|n: Seq<char>| n != name implies #[trigger] spec_has_service(out, n)
                == spec_has_service(ss, n) by {
                if spec_has_service(out, n) {
                    let w = choose|w: int|
                        0 <= w < out.len() && (#[trigger] out[w]).service_name == n;
                    assert(w < ss.len());
                    assert(ss[w].service_name == n);
                }
                if spec_has_service(ss, n) {
                    let w = choose|w: int|
                        0 <= w < ss.len() && (#[trigger] ss[w]).service_name == n;
                    assert(out[w].service_name == n);
                }
            }
        }
    } else {
        if k >= 0 {
            let r = ss.remove(k);
            assert(out == r);
            assert forall|w: int| 0 <= w < r.len() implies (#[trigger] r[w]).service_name
                != name by {
                let w0 = if w < k {
                    w
                } else {
                    w + 1
                };
                assert(r[w] == ss[w0]);
                if w0 < k {
                    assert(ss[w0].service_name != ss[k].service_name);
                } else if w0 > k {
                    assert(ss[k].service_name != ss[w0].service_name);
                }
            }
            assert(!spec_has_service(out, name));
            assert forall|a: int, b: int| 0 <= a < b < r.len() implies (
            #[trigger] r[a]).service_name != (#[trigger] r[b]).service_name by {
                let a0 = if a < k {
                    a
                } else {
                    a + 1
                };
                let b0 = if b < k {
                    b
                } else {
                    b + 1
                };
                assert(r[a] == ss[a0]);
                assert(r[b] == ss[b0]);
                assert(ss[a0].service_name != ss[b0].service_name);
            }
            assert forall|n: Seq<char>| n != name implies #[trigger] spec_has_service(out, n)
                == spec_has_service(ss, n) by {
                if spec_has_service(out, n) {
                    let w = choose|w: int|
                        0 <= w < r.len() && (#[trigger] r[w]).service_name == n;
                    let w0 = if w < k {
                        w
                    } else {
                        w + 1
                    };
                    assert(r[w] == ss[w0]);
                    assert(ss[w0].service_name == n);
                }
                if spec_has_service(ss, n) {
                    let w = choose|w: int|
                        0 <= w < ss.len() && (#[trigger] ss[w]).service_name == n;
                    assert(w != k);
                    let w1 = if w < k {
                        w
                    } else {
                        w - 1
                    };
                    assert(r[w1] == ss[w]);
                    assert(spec_has_service(out, n));
                }
            }
        } else {
            assert(!spec_has_service(out, name));
        }
    }
}

/// Reconciling configurations that never name a service leaves that
/// service's presence untouched, and keeps the handles unique.
proof fn lemma_reconcile_preserves_other(
    ss: Seq<ServiceView>,
    ags: Seq<AgentView>,
    cfgs: Seq<ServerConfig>,
    name: Seq<char>,
)
    requires
        spec_service_names_distinct(ss),
        forall|j: int| 0 <= j < cfgs.len() ==> (#[trigger] cfgs[j]).service_name@ != name,
    ensures
        spec_service_names_distinct(spec_reconcile(ss, ags, cfgs).services),
        spec_has_service(spec_reconcile(ss, ags, cfgs).services, name) == spec_has_service(
            ss,
            name,
        ),
    decreases cfgs.len(),
{
    if cfgs.len() > 0 {
        lemma_reconcile_one_props(ss, ags, cfgs[0]);
        let mid = spec_reconcile_one(ss, ags, cfgs[0]).services;
        assert(forall|j: int|
            0 <= j < cfgs.drop_first().len() ==> (#[trigger] cfgs.drop_first()[j]) == cfgs[j
                + 1]);
        lemma_reconcile_preserves_other(mid, ags, cfgs.drop_first(), name);
    }
}

/// Law: right after a reconciliation pass, a configured service has a
/// handle — and so a listener — exactly when at least one registered
/// agent is eligible for it. Stated for configuration sets whose service
/// names are unique; two configurations sharing a name contend for one
/// handle and settle on the later one's verdict.
pub proof fn lemma_reconcile_reflects_support(
    ss: Seq<ServiceView>,
    ags: Seq<AgentView>,
    cfgs: Seq<ServerConfig>,
    i: int,
)
    requires
        spec_service_names_distinct(ss),
        forall|a: int, b: int|
            0 <= a < b < cfgs.len() ==> (#[trigger] cfgs[a]).service_name@ != (
            #[trigger] cfgs[b]).service_name@,
        0 <= i < cfgs.len(),
    ensures
        spec_has_service(spec_reconcile(ss, ags, cfgs).services, cfgs[i].service_name@)
            == spec_supported(ags, cfgs[i].agent_group_name@),
    decreases cfgs.len(),
{
    lemma_reconcile_one_props(ss, ags, cfgs[0]);
    let mid = spec_reconcile_one(ss, ags, cfgs[0]).services;
    assert(forall|j: int|
        0 <= j < cfgs.drop_first().len() ==> (#[trigger] cfgs.drop_first()[j]) == cfgs[j + 1]);
    if i == 0 {
        assert forall|j: int|
            0 <= j < cfgs.drop_first().len() implies (
        #[trigger] cfgs.drop_first()[j]).service_name@ != cfgs[0].service_name@ by {
            assert(cfgs[0].service_name@ != cfgs[j + 1].service_name@);
        }
        lemma_reconcile_preserves_other(mid, ags, cfgs.drop_first(), cfgs[0].service_name@);
    } else {
        lemma_reconcile_reflects_support(mid, ags, cfgs.drop_first(), i - 1);
    }
}

/// Law: a registered agent's identifier appears in exactly one group
/// bucket. The agent sits in its own group's bucket, and any bucket entry
/// anywhere that carries its identifier is that same registration in that
/// same bucket.
pub proof fn lemma_agent_in_exactly_one_bucket(b: Broker, i: int)
    requires
        b.wf(),
        0 <= i < b.agents.deep_view().len(),
    ensures
        spec_bucket(b.agents.deep_view(), b.agents.deep_view()[i].group_name).contains(
            b.agents.deep_view()[i],
        ),
        forall|g: Seq<char>, k: int|
            0 <= k < spec_bucket(b.agents.deep_view(), g).len() && (#[trigger] spec_bucket(
                b.agents.deep_view(),
                g,
            )[k]).agent_id == b.agents.deep_view()[i].agent_id ==> g
                == b.agents.deep_view()[i].group_name && spec_bucket(b.agents.deep_view(), g)[k]
                == b.agents.deep_view()[i],
{
    let ags = b.agents.deep_view();
    let a = ags[i];
    ags.lemma_filter_contains(|x: AgentView| x.group_name == a.group_name, i);
    assert forall|g: Seq<char>, k: int|
        0 <= k < spec_bucket(ags, g).len() && (#[trigger] spec_bucket(ags, g)[k]).agent_id
            == a.agent_id implies g == a.group_name && spec_bucket(ags, g)[k] == a by {
        lemma_filter_elements(ags, |x: AgentView| x.group_name == g);
        let x = spec_bucket(ags, g)[k];
        assert(ags.contains(x));
        let w = choose|w: int| 0 <= w < ags.len() && ags[w] == x;
        assert forall|u: int, v: int|
            0 <= u < ags.len() && 0 <= v < ags.len() && u != v implies (
        #[trigger] ags[u]).agent_id != (#[trigger] ags[v]).agent_id by {
            if u < v {
                assert(ags[u].agent_id != ags[v].agent_id);
            } else {
                assert(ags[v].agent_id != ags[u].agent_id);
            }
        }
        if w != i {
            assert(ags[w].agent_id != ags[i].agent_id);
        }
        assert(x == a);
    }
}

/// Law: every pending connection identifier was produced by the
/// identifier generator within this broker's lifetime.
pub proof fn lemma_pending_ids_from_generator(b: Broker, i: int)
    requires
        b.wf(),
        0 <= i < b.pending.deep_view().len(),
    ensures
        b.ids_issued@.contains(b.pending.deep_view()[i].connection_id),
{
}

/// Law: an agent of the empty group is a candidate for every service; an
/// agent of a named group is a candidate exactly for the services
/// configured with that group.
pub proof fn lemma_group_routing(
    ags: Seq<AgentView>,
    cfgs: Seq<ServerConfig>,
    service: Seq<char>,
    i: int,
)
    requires
        0 <= i < ags.len(),
    ensures
        ags[i].group_name.len() == 0 ==> spec_candidates(ags, cfgs, service).contains(ags[i]),
        ags[i].group_name.len() != 0 ==> (spec_candidates(ags, cfgs, service).contains(ags[i])
            <==> spec_groups_of(cfgs, service).contains(ags[i].group_name)),
{
    let pred = |a: AgentView| spec_is_candidate(cfgs, service, a);
    if spec_is_candidate(cfgs, service, ags[i]) {
        ags.lemma_filter_contains(pred, i);
    }
    if spec_candidates(ags, cfgs, service).contains(ags[i]) {
        lemma_filter_elements(ags, pred);
        let k = choose|k: int|
            0 <= k < spec_candidates(ags, cfgs, service).len() && spec_candidates(
                ags,
                cfgs,
                service,
            )[k] == ags[i];
        assert(pred(ags[i]));
    }
}

/// Where a service's selection counter stands after some number of
/// selections.
pub open spec fn spec_counter_after(start: u64, k: nat) -> u64
    decreases k,
{
    if k == 0 {
        start
    } else {
        Broker::spec_next_counter(spec_counter_after(start, (k - 1) as nat))
    }
}

/// Law: with `n` candidate agents, the `k`-th client connection to a
/// service whose counter started at `start` selects the candidate at
/// index `(start + k) % n` — each selection uses the counter and then
/// moves it on by one.
pub proof fn lemma_round_robin_selection(start: u64, k: nat, n: int)
    requires
        start + k <= u64::MAX,
        0 < n,
    ensures
        spec_counter_after(start, k) == start + k,
        (spec_counter_after(start, k) as int) % n == (start + k) % n,
    decreases k,
{
    if k > 0 {
        lemma_round_robin_selection(start, (k - 1) as nat, n);
    }
}

} // verus!
