//! Service configurations.
//!
//! A service is a `(serviceName, agentGroupName, serverBindEndpoint,
//! agentServiceEndpoint)` tuple: clients connect to the bind endpoint and
//! their bytes flow to the service endpoint through an agent of the group.
//! The identity key of a service is `serviceName:agentGroupName`; the
//! configured set holds each key once, and a duplicate offered to it is
//! discarded.

use vstd::prelude::*;
use vstd::string::*;

verus! {

/// One configured service.
#[derive(Debug, Default)]
pub struct ServerConfig {
    pub service_name: String,
    pub agent_group_name: String,
    pub server_bind_endpoint: String,
    pub agent_service_endpoint: String,
}

impl Clone for ServerConfig {
    fn clone(&self) -> (r: Self)
        ensures
            r == *self,
    {
        ServerConfig {
            service_name: self.service_name.clone(),
            agent_group_name: self.agent_group_name.clone(),
            server_bind_endpoint: self.server_bind_endpoint.clone(),
            agent_service_endpoint: self.agent_service_endpoint.clone(),
        }
    }
}

/// The identity key of a configuration: `serviceName:agentGroupName`.
pub open spec fn spec_config_key(c: ServerConfig) -> Seq<char> {
    c.service_name@ + ":"@ + c.agent_group_name@
}

/// Renders the identity key under which a service is stored.
pub fn get_server_config_key(service_name: &String, group_name: &String) -> (r: String)
    ensures
        r@ == service_name@ + ":"@ + group_name@,
{
    let mut k = service_name.clone();
    k.append(":");
    k.append(group_name.as_str());
    k
}

/// The configured set of services, unique by identity key, in the order
/// they were accepted.
#[derive(Debug)]
pub struct ServerConfigs {
    pub items: Vec<ServerConfig>,
}

impl ServerConfigs {
    /// The keys of the stored configurations are pairwise distinct.
    pub open spec fn wf(self) -> bool {
        forall|i: int, j: int|
            0 <= i < j < self.items@.len() ==> spec_config_key(self.items@[i]) != spec_config_key(
                self.items@[j],
            )
    }

    /// Whether a configuration with this key is already stored.
    pub open spec fn spec_contains_key(self, key: Seq<char>) -> bool {
        exists|i: int| 0 <= i < self.items@.len() && spec_config_key(#[trigger] self.items@[i]) == key
    }

    /// An empty set.
    pub fn new() -> (r: ServerConfigs)
        ensures
            r.items@.len() == 0,
            r.wf(),
    {
        ServerConfigs { items: Vec::new() }
    }

    /// How many services are configured.
    pub fn len(&self) -> (n: usize)
        ensures
            n == self.items@.len(),
    {
        self.items.len()
    }

    /// Whether a configuration with the key of `c` is already stored.
    pub fn contains_key_of(&self, c: &ServerConfig) -> (r: bool)
        ensures
            r == self.spec_contains_key(spec_config_key(*c)),
    {
        let key = get_server_config_key(&c.service_name, &c.agent_group_name);
        let mut i: usize = 0;
        while i < self.items.len()
            invariant
                i <= self.items@.len(),
                key@ == spec_config_key(*c),
                forall|j: int|
                    0 <= j < i ==> spec_config_key(#[trigger] self.items@[j]) != spec_config_key(
                        *c,
                    ),
            decreases self.items@.len() - i,
        {
            let other = get_server_config_key(
                &self.items[i].service_name,
                &self.items[i].agent_group_name,
            );
            if key == other {
                return true;
            }
            i = i + 1;
        }
        false
    }
}

/// Whether a sequence of configurations holds one with this key.
pub open spec fn spec_seq_contains_key(s: Seq<ServerConfig>, key: Seq<char>) -> bool {
    exists|i: int| 0 <= i < s.len() && spec_config_key(#[trigger] s[i]) == key
}

/// What a sequence of configurations looks like after one more is offered
/// to it: the duplicate of a stored key is discarded, anything else is
/// appended.
pub open spec fn spec_add_to(s: Seq<ServerConfig>, c: ServerConfig) -> Seq<ServerConfig> {
    if spec_seq_contains_key(s, spec_config_key(c)) {
        s
    } else {
        s.push(c)
    }
}

/// What the set looks like after one configuration is offered to it.
pub open spec fn spec_add_config(s: ServerConfigs, c: ServerConfig) -> Seq<ServerConfig> {
    spec_add_to(s.items@, c)
}

/// Accepts a configuration into the set, discarding it if its
/// `serviceName:agentGroupName` key is already present.
pub fn add_server_config(sconfig: &ServerConfig, sconfigs: &mut ServerConfigs) -> (added: bool)
    requires
        old(sconfigs).wf(),
    ensures
        final(sconfigs).items@ == spec_add_config(*old(sconfigs), *sconfig),
        final(sconfigs).wf(),
        added == !old(sconfigs).spec_contains_key(spec_config_key(*sconfig)),
{
    if sconfigs.contains_key_of(sconfig) {
        false
    } else {
        sconfigs.items.push(sconfig.clone());
        true
    }
}

/// The tokens of a line cut at every single space, the leftover `cur`
/// first: cutting `""` yields one empty token, and every space ends a
/// token, so `n` spaces yield `n + 1` tokens.
pub open spec fn spec_split_rec(s: Seq<char>, cur: Seq<char>) -> Seq<Seq<char>>
    decreases s.len(),
{
    if s.len() == 0 {
        seq![cur]
    } else if s[0] == ' ' {
        seq![cur] + spec_split_rec(s.drop_first(), Seq::empty())
    } else {
        spec_split_rec(s.drop_first(), cur.push(s[0]))
    }
}

/// The tokens of a line cut at every single space.
pub open spec fn spec_split_spaces(s: Seq<char>) -> Seq<Seq<char>> {
    spec_split_rec(s, Seq::empty())
}

/// Cuts a line at every single space.
pub fn split_spaces(line: &String) -> (tokens: Vec<String>)
    ensures
        tokens.deep_view() == spec_split_spaces(line@),
{
    let n = line.as_str().unicode_len();
    let mut tokens: Vec<String> = Vec::new();
    let mut cur = String::new();
    let mut i: usize = 0;
    proof {
        assert(line@.skip(0) =~= line@);
    }
    while i < n
        invariant
            i <= n,
            n == line@.len(),
            spec_split_spaces(line@) == tokens.deep_view() + spec_split_rec(
                line@.skip(i as int),
                cur@,
            ),
        decreases n - i,
    {
        let ghost prev_tokens = tokens.deep_view();
        let ghost prev_cur = cur@;
        let c = line.as_str().get_char(i);
        proof {
            assert(line@.skip(i as int)[0] == c);
            assert(line@.skip(i as int).drop_first() =~= line@.skip(i as int + 1));
        }
        if c == ' ' {
            tokens.push(cur);
            cur = String::new();
            proof {
                assert(tokens.deep_view() =~= prev_tokens.push(prev_cur));
                assert(prev_tokens + (seq![prev_cur] + spec_split_rec(
                    line@.skip(i as int + 1),
                    Seq::empty(),
                )) =~= prev_tokens.push(prev_cur) + spec_split_rec(
                    line@.skip(i as int + 1),
                    Seq::empty(),
                ));
            }
        } else {
            let piece = line.as_str().substring_char(i, i + 1);
            proof {
                assert(piece@ =~= seq![c]);
            }
            cur.append(piece);
            proof {
                assert(cur@ =~= prev_cur.push(c));
            }
        }
        i = i + 1;
    }
    proof {
        assert(line@.skip(n as int) =~= Seq::<char>::empty());
    }
    let ghost prev_tokens = tokens.deep_view();
    let ghost last = cur@;
    tokens.push(cur);
    proof {
        assert(tokens.deep_view() =~= prev_tokens.push(last));
        assert(prev_tokens + seq![last] =~= prev_tokens.push(last));
    }
    tokens
}

/// Why a configuration line was rejected.
#[derive(Clone, Copy, Debug, PartialEq, Eq, Structural)]
pub enum ConfigError {
    /// The line holds fewer than the four space-separated fields
    /// `serviceName agentGroupName serverBindEndpoint agentServiceEndpoint`.
    MissingFields,
}

/// Reads one service configuration from a line of four space-separated
/// fields: service name, agent group name, server bind endpoint, agent
/// service endpoint. A line with fewer fields is rejected; a fifth field
/// and beyond are ignored.
pub fn parse_server_config_line(line: &String) -> (r: Result<ServerConfig, ConfigError>)
    ensures
        r is Ok <==> spec_split_spaces(line@).len() >= 4,
        r matches Ok(c) ==> {
            &&& c.service_name@ == spec_split_spaces(line@)[0]
            &&& c.agent_group_name@ == spec_split_spaces(line@)[1]
            &&& c.server_bind_endpoint@ == spec_split_spaces(line@)[2]
            &&& c.agent_service_endpoint@ == spec_split_spaces(line@)[3]
        },
{
    let tokens = split_spaces(line);
    if tokens.len() >= 4 {
        let sconfig = ServerConfig {
            service_name: tokens[0].clone(),
            agent_group_name: tokens[1].clone(),
            server_bind_endpoint: tokens[2].clone(),
            agent_service_endpoint: tokens[3].clone(),
        };
        Ok(sconfig)
    } else {
        Err(ConfigError::MissingFields)
    }
}

/// The set after every configuration of `extra` was offered to `base` in
/// order, duplicates discarded.
pub open spec fn spec_merge_configs(base: Seq<ServerConfig>, extra: Seq<ServerConfig>) -> Seq<
    ServerConfig,
>
    decreases extra.len(),
{
    if extra.len() == 0 {
        base
    } else {
        spec_merge_configs(
            spec_add_to(base, extra[0]),
            extra.drop_first(),
        )
    }
}

/// Offers every configuration of `extra` to `sconfigs` in order; a
/// configuration whose key is already present is discarded.
pub fn merge_server_configs(sconfigs: &mut ServerConfigs, extra: &ServerConfigs)
    requires
        old(sconfigs).wf(),
    ensures
        final(sconfigs).items@ == spec_merge_configs(old(sconfigs).items@, extra.items@),
        final(sconfigs).wf(),
{
    let mut i: usize = 0;
    proof {
        assert(extra.items@.skip(0) =~= extra.items@);
    }
    while i < extra.items.len()
        invariant
            i <= extra.items@.len(),
            sconfigs.wf(),
            spec_merge_configs(old(sconfigs).items@, extra.items@) == spec_merge_configs(
                sconfigs.items@,
                extra.items@.skip(i as int),
            ),
        decreases extra.items@.len() - i,
    {
        proof {
            assert(extra.items@.skip(i as int)[0] == extra.items@[i as int]);
            assert(extra.items@.skip(i as int).drop_first() =~= extra.items@.skip(i as int + 1));
        }
        add_server_config(&extra.items[i], sconfigs);
        i = i + 1;
    }
}

/// Holds what the embedding process read from its command line.
#[derive(Debug)]
pub struct AppOptions {
    pub mode: String,
    pub agent_server_endpoint: String,
    pub agent_group_name: String,
    pub server_agent_control_bind_endpoint: String,
    pub server_configs: ServerConfigs,
}

/// Where the service configuration file sits under a configuration
/// directory.
pub fn get_config_file_path(config_dir: &String) -> (r: String)
    ensures
        r@ == config_dir@ + "/"@ + "munnel.ini"@,
{
    let mut p = config_dir.clone();
    p.append("/");
    p.append("munnel.ini");
    p
}

/// Where the logging configuration file sits under a configuration
/// directory.
pub fn get_log_config_file_path(config_dir: &String) -> (r: String)
    ensures
        r@ == config_dir@ + "/"@ + "log4rs.yaml"@,
{
    let mut p = config_dir.clone();
    p.append("/");
    p.append("log4rs.yaml");
    p
}

} // verus!
