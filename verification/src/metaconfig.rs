//! Generation of the configurations of a whole deployment from its groups.

use crate::config::{clone_opt_text, LocalServerConfig, ServerConfig, ServersConfig};
use crate::error::ServerError;
use crate::server::validation::{bls_public_key_of, ed25519_public_key_of, PrivateKey};
use crate::utils::{b64_encode, b64_encoding, decimal, decimal_digits};
use rand::RngCore;
use vstd::prelude::*;
use vstd::string::StringExecFns;

verus! {

/// The inner provider of the first generated server listens on this port, that
/// of the next on the next.
pub const INNER_BEGIN: u16 = 6000;

/// The first generated server listens on this port, the next on the next.
pub const OUTER_BEGIN: u16 = 8000;

/// A group of servers that own the same sub-tree.
#[derive(Debug)]
pub struct PeerGroupConfig {
    pub prefix: Option<String>,
    pub prefix_length: Option<u32>,
    pub length: u32,
    pub count: u32,
    pub epoch_interval: u32,
}

/// The groups of a deployment.
#[derive(Debug)]
pub struct MetaConfig {
    pub peer_groups: Vec<PeerGroupConfig>,
}

/// `RngCore::fill_bytes` of `rand::thread_rng()` on a buffer of 32 bytes. What
/// the bytes are is left open.
#[verifier::external_body]
pub(crate) fn random_seed() -> (res: [u8; 32]) {
    let mut rand_buf = [0u8; 32];
    rand::thread_rng().fill_bytes(&mut rand_buf);
    rand_buf
}

/// The number of servers in the groups.
pub open spec fn total_servers(groups: Seq<PeerGroupConfig>) -> nat
    decreases groups.len(),
{
    if groups.len() == 0 {
        0
    } else {
        total_servers(groups.drop_last()) + groups.last().count as nat
    }
}

/// Whether server `i` of the deployment, counting through the groups, belongs
/// to group `g`.
pub open spec fn in_group(groups: Seq<PeerGroupConfig>, g: int, i: int) -> bool {
    &&& 0 <= g < groups.len()
    &&& total_servers(groups.take(g)) <= i < total_servers(groups.take(g + 1))
}

/// Whether `config` is what is generated for server `i`, in the given group and
/// with the given seed: the group's prefix and lengths, the name and the ports
/// by the server's number, and the keys of the seed in base64.
pub open spec fn is_generated(
    config: LocalServerConfig,
    group: PeerGroupConfig,
    i: int,
    seed: Seq<u8>,
) -> bool {
    &&& config.server_config.prefix == group.prefix
    &&& config.server_config.prefix_length == group.prefix_length
    &&& config.server_config.length == group.length
    &&& config.server_config.id@ == "srv_"@ + decimal_digits(i as nat)
    &&& config.server_config.connection_string@ == "127.0.0.1:"@ + decimal_digits(
        (OUTER_BEGIN + i) as nat,
    )
    &&& config.server_config.bls_pub_key@ == b64_encoding(bls_public_key_of(seed))
    &&& config.server_config.dalek_pub_key@ == b64_encoding(ed25519_public_key_of(seed))
    &&& config.epoch_interval == group.epoch_interval
    &&& config.private_key@ == b64_encoding(seed)
    &&& config.inner_port == INNER_BEGIN + i
    &&& config.outer_port == OUTER_BEGIN + i
    &&& config.outer_addr@ == config.server_config.connection_string@
}

/// Whether `config` is what is generated for server `i` of the groups with the
/// given seed: the record of the server's number in the group that the server
/// belongs to.
pub open spec fn is_generated_of(
    config: LocalServerConfig,
    groups: Seq<PeerGroupConfig>,
    i: int,
    seed: Seq<u8>,
) -> bool {
    exists|g: int| #[trigger] in_group(groups, g, i) && is_generated(config, groups[g], i, seed)
}

/// The public records of all servers but server `i`, in their order.
pub open spec fn others(locals: Seq<LocalServerConfig>, i: int) -> Seq<ServerConfig> {
    Seq::new(
        (locals.len() - 1) as nat,
        |j: int|
            if j < i {
                locals[j].server_config
            } else {
                locals[j + 1].server_config
            },
    )
}

/// The local records of the configurations.
pub open spec fn locals_of(configs: Seq<ServersConfig>) -> Seq<LocalServerConfig> {
    Seq::new(configs.len(), |i: int| configs[i].server)
}

/// Whether `configs` are the configurations of the servers of the groups, made
/// with the given seeds: one for each server, each with all the others as peers.
pub open spec fn are_generated(
    configs: Seq<ServersConfig>,
    groups: Seq<PeerGroupConfig>,
    seeds: Seq<Seq<u8>>,
) -> bool {
    let locals = locals_of(configs);
    &&& configs.len() == total_servers(groups)
    &&& seeds.len() == configs.len()
    &&& forall|i: int|
        0 <= i < configs.len() ==> is_generated_of(
            (#[trigger] configs[i]).server,
            groups,
            i,
            seeds[i],
        )
    &&& forall|i: int|
        0 <= i < configs.len() ==> ((#[trigger] configs[i]).peers matches Some(peers) && peers@
            == others(locals, i))
}

/// Whether each of the records made so far is the generated one of its server,
/// `owner` naming each server's group.
spec fn all_generated(
    made: Seq<LocalServerConfig>,
    groups: Seq<PeerGroupConfig>,
    owner: Seq<int>,
    seeds: Seq<Seq<u8>>,
) -> bool {
    &&& owner.len() == made.len()
    &&& made.len() <= seeds.len()
    &&& forall|i: int|
        0 <= i < made.len() ==> in_group(groups, #[trigger] owner[i], i) && is_generated(
            made[i],
            groups[owner[i]],
            i,
            seeds[i],
        )
}

/// Whether the servers of the groups can be given ports from the first ones on.
pub open spec fn ports_suffice(groups: Seq<PeerGroupConfig>) -> bool {
    OUTER_BEGIN + total_servers(groups) <= u16::MAX + 1
}

proof fn lemma_total_take(groups: Seq<PeerGroupConfig>, g: int)
    requires
        0 <= g < groups.len(),
    ensures
        total_servers(groups.take(g + 1)) == total_servers(groups.take(g)) + groups[g].count,
{
    assert(groups.take(g + 1).drop_last() == groups.take(g));
}

proof fn lemma_total_grows(groups: Seq<PeerGroupConfig>, g: int)
    requires
        0 <= g <= groups.len(),
    ensures
        total_servers(groups.take(g)) <= total_servers(groups),
    decreases groups.len() - g,
{
    if g < groups.len() {
        lemma_total_take(groups, g);
        lemma_total_grows(groups, g + 1);
    } else {
        assert(groups.take(g) == groups);
    }
}

impl MetaConfig {
    /// The number of servers of the deployment, where they can all be given
    /// ports.
    pub fn server_count(&self) -> (res: Option<usize>)
        ensures
            match res {
                Some(n) => ports_suffice(self.peer_groups@) && n == total_servers(
                    self.peer_groups@,
                ),
                None => !ports_suffice(self.peer_groups@),
            },
    {
        let mut total: usize = 0;
        let mut g: usize = 0;
        while g < self.peer_groups.len()
            invariant
                g <= self.peer_groups.len(),
                total == total_servers(self.peer_groups@.take(g as int)),
                OUTER_BEGIN + total <= u16::MAX + 1,
            decreases self.peer_groups.len() - g,
        {
            let count = self.peer_groups[g].count as usize;
            proof {
                lemma_total_take(self.peer_groups@, g as int);
                lemma_total_grows(self.peer_groups@, g + 1);
            }
            if count > 65536 || OUTER_BEGIN as usize + total + count > 65536 {
                return None;
            }
            total = total + count;
            g += 1;
        }
        assert(self.peer_groups@.take(self.peer_groups.len() as int) == self.peer_groups@);
        Some(total)
    }

    /// The configuration of each server of the deployment, made with the given
    /// seeds, one for each server. Nothing is made where the seeds are not as
    /// many as the servers, or where the ports do not suffice.
    pub fn serv_configs_with(&self, seeds: &Vec<[u8; 32]>) -> (res: Result<
        Vec<ServersConfig>,
        ServerError,
    >)
        ensures
            res is Ok <==> ports_suffice(self.peer_groups@) && seeds.len() == total_servers(
                self.peer_groups@,
            ),
            res matches Ok(configs) ==> are_generated(
                configs@,
                self.peer_groups@,
                seeds@.map_values(|s: [u8; 32]| s@),
            ),
            res matches Err(e) ==> e == ServerError::ConfigError,
    {
        let total = match self.server_count() {
            Some(n) => n,
            None => {
                return Err(ServerError::ConfigError);
            },
        };
        if seeds.len() != total {
            return Err(ServerError::ConfigError);
        }
        let ghost groups = self.peer_groups@;
        let ghost seed_views = seeds@.map_values(|s: [u8; 32]| s@);
        let mut serv_configs: Vec<LocalServerConfig> = Vec::new();
        let ghost mut owner: Seq<int> = Seq::empty();
        assert(groups.take(0) =~= Seq::<PeerGroupConfig>::empty());
        let mut g: usize = 0;
        while g < self.peer_groups.len()
            invariant
                g <= self.peer_groups.len(),
                groups == self.peer_groups@,
                seed_views == seeds@.map_values(|s: [u8; 32]| s@),
                seeds.len() == total,
                total == total_servers(groups),
                OUTER_BEGIN + total <= u16::MAX + 1,
                serv_configs.len() == total_servers(groups.take(g as int)),
                all_generated(serv_configs@, groups, owner, seed_views),
            decreases self.peer_groups.len() - g,
        {
            let peer_group = &self.peer_groups[g];
            proof {
                lemma_total_take(groups, g as int);
                lemma_total_grows(groups, g + 1);
            }
            let mut k: u32 = 0;
            while k < peer_group.count
                invariant
                    k <= peer_group.count,
                    g < self.peer_groups.len(),
                    *peer_group == groups[g as int],
                    groups == self.peer_groups@,
                    seed_views == seeds@.map_values(|s: [u8; 32]| s@),
                    seeds.len() == total,
                    total == total_servers(groups),
                    OUTER_BEGIN + total <= u16::MAX + 1,
                    total_servers(groups.take(g + 1)) == total_servers(groups.take(g as int))
                        + peer_group.count,
                    total_servers(groups.take(g + 1)) <= total,
                    serv_configs.len() == total_servers(groups.take(g as int)) + k,
                    all_generated(serv_configs@, groups, owner, seed_views),
                decreases peer_group.count - k,
            {
                let s_cnt: usize = serv_configs.len();
                let port: u16 = OUTER_BEGIN + (s_cnt as u16);
                let conn_st = String::from_str("127.0.0.1:").concat(decimal(port as u64).as_str());
                let priv_key = PrivateKey::from(seeds[s_cnt]);
                let pub_key = priv_key.public_key();
                let serv_config = ServerConfig {
                    prefix: clone_opt_text(&peer_group.prefix),
                    prefix_length: peer_group.prefix_length,
                    length: peer_group.length,
                    id: String::from_str("srv_").concat(decimal(s_cnt as u64).as_str()),
                    connection_string: conn_st.clone(),
                    bls_pub_key: b64_encode(pub_key.bls_bytes().as_slice()),
                    dalek_pub_key: b64_encode(pub_key.dalek_bytes().as_slice()),
                };
                let local_srv_config = LocalServerConfig {
                    server_config: serv_config,
                    epoch_interval: peer_group.epoch_interval,
                    private_key: b64_encode(priv_key.as_bytes()),
                    inner_port: INNER_BEGIN + (s_cnt as u16),
                    outer_port: port,
                    outer_addr: conn_st,
                };
                let ghost made = serv_configs@;
                let ghost owned = owner;
                proof {
                    assert(seed_views[s_cnt as int] == seeds[s_cnt as int]@);
                    assert(is_generated(
                        local_srv_config,
                        groups[g as int],
                        s_cnt as int,
                        seed_views[s_cnt as int],
                    ));
                    assert(in_group(groups, g as int, s_cnt as int));
                    owner = owner.push(g as int);
                }
                serv_configs.push(local_srv_config);
                k += 1;
                proof {
                    assert forall|i: int| 0 <= i < serv_configs@.len() implies in_group(
                        groups,
                        #[trigger] owner[i],
                        i,
                    ) && is_generated(serv_configs@[i], groups[owner[i]], i, seed_views[i]) by {
                        if i < made.len() {
                            assert(owner[i] == owned[i]);
                            assert(serv_configs@[i] == made[i]);
                        }
                    }
                }
            }
            g += 1;
        }
        assert(groups.take(self.peer_groups.len() as int) == groups);
        assert(all_generated(Seq::<LocalServerConfig>::empty(), groups, Seq::<int>::empty(), seed_views));
        let mut final_conf: Vec<ServersConfig> = Vec::new();
        let mut i: usize = 0;
        while i < serv_configs.len()
            invariant
                i <= serv_configs.len(),
                final_conf.len() == i,
                all_generated(serv_configs@, groups, owner, seed_views),
                forall|a: int|
                    0 <= a < i ==> (#[trigger] final_conf[a]).server == serv_configs[a] && (
                    final_conf[a].peers matches Some(peers) && peers@ == others(serv_configs@, a)),
            decreases serv_configs.len() - i,
        {
            let mut peers: Vec<ServerConfig> = Vec::new();
            let mut j: usize = 0;
            while j < serv_configs.len()
                invariant
                    j <= serv_configs.len(),
                    i < serv_configs.len(),
                    peers.len() == if j <= i {
                        j as int
                    } else {
                        j - 1
                    },
                    forall|b: int|
                        0 <= b < peers.len() ==> #[trigger] peers[b] == others(serv_configs@, i as int)[b],
                decreases serv_configs.len() - j,
            {
                if j != i {
                    peers.push(serv_configs[j].server_config.clone());
                }
                j += 1;
            }
            assert(peers@ =~= others(serv_configs@, i as int));
            let cur_conf = ServersConfig { server: serv_configs[i].clone(), peers: Some(peers) };
            final_conf.push(cur_conf);
            i += 1;
        }
        proof {
            let locals = locals_of(final_conf@);
            assert forall|a: int| 0 <= a < locals.len() implies locals[a] == serv_configs@[a] by {
                assert(final_conf[a].server == serv_configs[a]);
            }
            assert(locals =~= serv_configs@);
            assert(final_conf@.len() == total_servers(groups));
            assert forall|i: int| 0 <= i < final_conf@.len() implies ((
            #[trigger] final_conf@[i]).peers matches Some(peers) && peers@ == others(locals, i)) by {
                assert(final_conf[i].server == serv_configs[i]);
            }
            assert forall|i: int| 0 <= i < final_conf@.len() implies is_generated_of(
                (#[trigger] final_conf@[i]).server,
                groups,
                i,
                seed_views[i],
            ) by {
                assert(in_group(groups, owner[i], i) && is_generated(
                    serv_configs@[i],
                    groups[owner[i]],
                    i,
                    seed_views[i],
                ));
                assert(final_conf@[i].server == serv_configs@[i]);
            }
        }
        Ok(final_conf)
    }

    /// The configuration of each server of the deployment, each with a fresh
    /// random seed: what `serv_configs_with` makes of some seeds.
    pub fn to_serv_configs(&self) -> (res: Result<Vec<ServersConfig>, ServerError>)
        ensures
            res is Ok <==> ports_suffice(self.peer_groups@),
            res matches Ok(configs) ==> exists|seeds: Seq<Seq<u8>>|
                are_generated(configs@, self.peer_groups@, seeds),
            res matches Err(e) ==> e == ServerError::ConfigError,
    {
        let total = match self.server_count() {
            Some(n) => n,
            None => {
                return Err(ServerError::ConfigError);
            },
        };
        let mut seeds: Vec<[u8; 32]> = Vec::new();
        while seeds.len() < total
            invariant
                seeds.len() <= total,
            decreases total - seeds.len(),
        {
            seeds.push(random_seed());
        }
        self.serv_configs_with(&seeds)
    }
}

} // verus!
