//! The topology resolver: from a cluster configuration to a server that knows
//! its superior and its parallel peers.

use crate::config::{LocalServerConfig, ServerConfig, ServersConfig};
use crate::error::ServerError;
use crate::server::validation::{
    bls_key_decodes, ed25519_key_decodes, PrivateKey, PublicKey, PublicKeyView,
};
use crate::server::synchronization::{MerkleVerseServerState, RunState, StateView};
use crate::server::{
    as_member, bits_before, distinct_ids, lemma_bits_before_one_way,
    lemma_bits_before_transitive, lemma_bits_comparable, peer_views, position_of, Index, IndexView,
    MerkleVerseServer, MerkleVerseServerView, PeerServer, PeerServerView, ServerCluster, ServerId,
};
use crate::utils;
use crate::utils::{b64_decoding, bits_from, decimal_digits, location_of, packed};
use vstd::prelude::*;
use vstd::string::StringExecFns;

verus! {

/// The address that a configuration gives as prefix: the empty one where it
/// gives none, nothing where a prefix comes without its length or does not
/// decode into it.
pub open spec fn prefix_of_config(prefix: Option<String>, prefix_length: Option<u32>) -> Option<
    IndexView,
> {
    match prefix {
        Some(p) => match prefix_length {
            Some(length) => match location_of(p@, length as nat) {
                Some(bytes) => Some(IndexView { index: bytes, length }),
                None => None,
            },
            None => None,
        },
        None => Some(IndexView { index: Seq::empty(), length: 0 }),
    }
}

/// The public keys that a configuration gives in base64.
pub open spec fn key_of_config(bls: Seq<char>, dalek: Seq<char>) -> Option<PublicKeyView> {
    match (b64_decoding(bls), b64_decoding(dalek)) {
        (Some(b), Some(d)) => if bls_key_decodes(b) && d.len() >= 32 && ed25519_key_decodes(
            d.take(32),
        ) {
            Some(PublicKeyView { bls: b, dalek: d.take(32) })
        } else {
            None
        },
        _ => None,
    }
}

/// The peer that a configuration describes.
pub open spec fn peer_of_config(config: ServerConfig) -> Option<PeerServerView> {
    match (
        prefix_of_config(config.prefix, config.prefix_length),
        key_of_config(config.bls_pub_key@, config.dalek_pub_key@),
    ) {
        (Some(prefix), Some(public_key)) => Some(
            PeerServerView {
                id: config.id@,
                connection_string: config.connection_string@,
                prefix,
                length: config.length,
                public_key,
            },
        ),
        _ => None,
    }
}

/// The server that a configuration describes, before it knows its clusters.
pub open spec fn local_of_config(config: LocalServerConfig) -> Option<MerkleVerseServerView> {
    match (
        prefix_of_config(config.server_config.prefix, config.server_config.prefix_length),
        b64_decoding(config.private_key@),
        key_of_config(config.server_config.bls_pub_key@, config.server_config.dalek_pub_key@),
    ) {
        (Some(prefix), Some(seed), Some(public_key)) => if seed.len() == 32 {
            Some(
                MerkleVerseServerView {
                    inner_dst: "http://127.0.0.1:"@ + decimal_digits(config.inner_port as nat),
                    connection_string: "127.0.0.1:"@ + decimal_digits(config.outer_port as nat),
                    id: config.server_config.id@,
                    prefix,
                    length: config.server_config.length,
                    superior: None,
                    parallel: None,
                    epoch_interval: config.epoch_interval,
                    private_key: seed,
                    public_key,
                },
            )
        } else {
            None
        },
        _ => None,
    }
}

/// The address `own` as seen from below `superior`: the bits of `own` behind
/// those of `superior`, in the fewest bytes. Nothing where the bits of
/// `superior` do not begin those of `own`.
pub open spec fn relative_to(own: IndexView, superior: IndexView) -> Option<IndexView> {
    if superior.is_prefix_of(own) {
        Some(
            IndexView {
                index: packed(bits_from(own.index, own.length as nat, superior.length as nat)),
                length: (own.length - superior.length) as u32,
            },
        )
    } else {
        None
    }
}

fn read_prefix(prefix: &Option<String>, prefix_length: &Option<u32>) -> (res: Result<
    Index,
    ServerError,
>)
    ensures
        match prefix_of_config(*prefix, *prefix_length) {
            Some(index) => res matches Ok(i) && i@ == index,
            None => res matches Err(e) && e == ServerError::ConfigError,
        },
{
    match prefix {
        Some(p) => match prefix_length {
            Some(length) => Index::from_b64(p.as_str(), *length),
            None => Err(ServerError::ConfigError),
        },
        None => Ok(Index::default()),
    }
}

fn read_key(bls: &String, dalek: &String) -> (res: Result<PublicKey, ServerError>)
    ensures
        match key_of_config(bls@, dalek@) {
            Some(key) => res matches Ok(k) && k@ == key,
            None => res matches Err(e) && e == ServerError::ConfigError,
        },
{
    let b = match utils::b64_decode(bls.as_str()) {
        Ok(b) => b,
        Err(_) => {
            return Err(ServerError::ConfigError);
        },
    };
    let d = match utils::b64_decode(dalek.as_str()) {
        Ok(d) => d,
        Err(_) => {
            return Err(ServerError::ConfigError);
        },
    };
    PublicKey::new(&b, &d)
}

impl PeerServer {
    /// Reads a peer from its configuration.
    pub fn from_config(config: &ServerConfig) -> (res: Result<Self, ServerError>)
        ensures
            match peer_of_config(*config) {
                Some(peer) => res matches Ok(p) && p@ == peer,
                None => res matches Err(e) && e == ServerError::ConfigError,
            },
    {
        let prefix = match read_prefix(&config.prefix, &config.prefix_length) {
            Ok(p) => p,
            Err(e) => {
                return Err(e);
            },
        };
        let public_key = match read_key(&config.bls_pub_key, &config.dalek_pub_key) {
            Ok(k) => k,
            Err(e) => {
                return Err(e);
            },
        };
        Ok(
            Self {
                id: ServerId(config.id.clone()),
                length: config.length,
                prefix,
                connection_string: config.connection_string.clone(),
                public_key,
            },
        )
    }
}

impl MerkleVerseServer {
    /// This server's address as seen from a superior: its prefix without the
    /// superior's. Without a superior it is the prefix itself.
    pub fn relative_index(&self, superior: Option<&PeerServer>) -> (res: Result<
        Index,
        ServerError,
    >)
        ensures
            match superior {
                Some(srv) => match relative_to(self@.prefix, srv@.prefix) {
                    Some(index) => res matches Ok(i) && i@ == index,
                    None => res matches Err(e) && e == ServerError::ConfigError,
                },
                None => res matches Ok(i) && i@ == self@.prefix,
            },
    {
        match superior {
            Some(srv) => {
                if !srv.prefix.is_prefix_of(&self.prefix) {
                    return Err(ServerError::ConfigError);
                }
                assert(srv.prefix@.bits().len() <= self.prefix@.bits().len());
                let ln = self.prefix.length - srv.prefix.length;
                Ok(
                    Index {
                        index: utils::pack_bits(
                            self.prefix.index.as_slice(),
                            self.prefix.length as usize,
                            srv.prefix.length as usize,
                        ),
                        length: ln,
                    },
                )
            },
            None => Ok(self.prefix.clone()),
        }
    }

    /// Reads this server from its own configuration. It knows no cluster yet.
    pub fn from_config(config: &LocalServerConfig) -> (res: Result<Self, ServerError>)
        ensures
            match local_of_config(*config) {
                Some(server) => res matches Ok(s) && s@ == server && s.wf(),
                None => res matches Err(e) && e == ServerError::ConfigError,
            },
    {
        let inn_cfig = &config.server_config;
        let prefix = match read_prefix(&inn_cfig.prefix, &inn_cfig.prefix_length) {
            Ok(p) => p,
            Err(e) => {
                return Err(e);
            },
        };
        let seed = match utils::b64_decode(config.private_key.as_str()) {
            Ok(s) => s,
            Err(_) => {
                return Err(ServerError::ConfigError);
            },
        };
        let private_key = match PrivateKey::try_from(seed) {
            Ok(k) => k,
            Err(e) => {
                return Err(e);
            },
        };
        let public_key = match read_key(&inn_cfig.bls_pub_key, &inn_cfig.dalek_pub_key) {
            Ok(k) => k,
            Err(e) => {
                return Err(e);
            },
        };
        Ok(
            Self {
                epoch_interval: config.epoch_interval,
                id: ServerId(inn_cfig.id.clone()),
                inner_dst: String::from_str("http://127.0.0.1:").concat(
                    utils::decimal(config.inner_port as u64).as_str(),
                ),
                length: inn_cfig.length,
                prefix,
                connection_string: String::from_str("127.0.0.1:").concat(
                    utils::decimal(config.outer_port as u64).as_str(),
                ),
                parallel: None,
                superior: None,
                private_key,
                public_key,
            },
        )
    }
}

/// The peers that a list of configurations describes; nothing where one of
/// them describes none.
pub open spec fn peers_of_configs(configs: Seq<ServerConfig>) -> Option<Seq<PeerServerView>> {
    if forall|i: int| 0 <= i < configs.len() ==> (#[trigger] peer_of_config(configs[i])) is Some {
        Some(Seq::new(configs.len(), |i: int| peer_of_config(configs[i]).unwrap()))
    } else {
        None
    }
}

/// A sorted sequence with `peer` in it: before the first peer whose prefix
/// sorts behind its own, so behind those of the same prefix.
pub open spec fn insert_by_prefix(sorted: Seq<PeerServerView>, peer: PeerServerView) -> Seq<
    PeerServerView,
>
    decreases sorted.len(),
{
    if sorted.len() == 0 {
        seq![peer]
    } else if bits_before(peer.prefix.bits(), sorted.last().prefix.bits()) {
        insert_by_prefix(sorted.drop_last(), peer).push(sorted.last())
    } else {
        sorted.push(peer)
    }
}

/// The peers in the order of their prefixes' binary strings; peers of the
/// same prefix keep the order in which they were given.
pub open spec fn sorted_by_prefix(peers: Seq<PeerServerView>) -> Seq<PeerServerView>
    decreases peers.len(),
{
    if peers.len() == 0 {
        Seq::empty()
    } else {
        insert_by_prefix(sorted_by_prefix(peers.drop_last()), peers.last())
    }
}

/// Those of the peers that `chosen` picks, in their order, each as the member
/// of a cluster.
pub open spec fn members_where(
    peers: Seq<PeerServerView>,
    chosen: spec_fn(PeerServerView) -> bool,
) -> Seq<PeerServerView>
    decreases peers.len(),
{
    if peers.len() == 0 {
        Seq::empty()
    } else if chosen(peers.last()) {
        members_where(peers.drop_last(), chosen).push(as_member(peers.last()))
    } else {
        members_where(peers.drop_last(), chosen)
    }
}

/// Whether `peer` is a superior of the server: it stores keys as long as the
/// server's prefix, and its own prefix begins the server's and is shorter.
pub open spec fn is_superior(own: MerkleVerseServerView, peer: PeerServerView) -> bool {
    &&& peer.length == own.prefix.length
    &&& peer.prefix.length < own.prefix.length
    &&& peer.prefix.is_prefix_of(own.prefix)
}

/// Whether `peer` is parallel to the server: it owns the same sub-tree, with
/// keys of the same length.
pub open spec fn is_parallel(own: MerkleVerseServerView, peer: PeerServerView) -> bool {
    &&& peer.length == own.length
    &&& peer.prefix.bits() == own.prefix.bits()
}

/// The cluster of the members, if there is any member.
pub open spec fn cluster_of(members: Seq<PeerServerView>) -> Option<Seq<PeerServerView>> {
    if members.len() == 0 {
        None
    } else {
        Some(members)
    }
}

/// The peer states in which exactly the given peers are known, each in `Normal`.
pub open spec fn known_peers(peers: Seq<PeerServerView>) -> Map<Seq<char>, RunState> {
    Map::new(
        |id: Seq<char>| exists|i: int| 0 <= i < peers.len() && (#[trigger] peers[i]).id == id,
        |id: Seq<char>| RunState::Normal,
    )
}

/// The server and the state that a cluster configuration describes: the server
/// of the local record, with the superior and the parallel peers as its
/// clusters, taken in the order of their prefixes; and a fresh state that
/// knows every peer. Nothing where a record is malformed or two peers have the
/// same name.
pub open spec fn resolved(config: ServersConfig) -> Option<(MerkleVerseServerView, StateView)> {
    let configs = match config.peers {
        Some(p) => p@,
        None => Seq::empty(),
    };
    match (peers_of_configs(configs), local_of_config(config.server)) {
        (Some(peers), Some(local)) => if distinct_ids(peers) {
            let sorted = sorted_by_prefix(peers);
            Some(
                (
                    MerkleVerseServerView {
                        superior: cluster_of(
                            members_where(sorted, |p: PeerServerView| is_superior(local, p)),
                        ),
                        parallel: cluster_of(
                            members_where(sorted, |p: PeerServerView| is_parallel(local, p)),
                        ),
                        ..local
                    },
                    StateView { peer_states: known_peers(peers), ..StateView::initial() },
                ),
            )
        } else {
            None
        },
        _ => None,
    }
}

/// Entering a peer at the place where those behind it sort behind it and the one
/// before it does not is what `insert_by_prefix` does.
proof fn lemma_insert_place(sorted: Seq<PeerServerView>, peer: PeerServerView, place: int)
    requires
        0 <= place <= sorted.len(),
        forall|k: int|
            place <= k < sorted.len() ==> bits_before(
                peer.prefix.bits(),
                (#[trigger] sorted[k]).prefix.bits(),
            ),
        place > 0 ==> !bits_before(peer.prefix.bits(), sorted[place - 1].prefix.bits()),
    ensures
        insert_by_prefix(sorted, peer) == sorted.insert(place, peer),
    decreases sorted.len(),
{
    if sorted.len() == 0 {
        assert(seq![peer] =~= sorted.insert(place, peer));
    } else if place == sorted.len() {
        assert(sorted.push(peer) =~= sorted.insert(place, peer));
    } else {
        assert(bits_before(peer.prefix.bits(), sorted[sorted.len() - 1].prefix.bits()));
        lemma_insert_place(sorted.drop_last(), peer, place);
        assert(sorted.drop_last().insert(place, peer).push(sorted.last()) =~= sorted.insert(
            place,
            peer,
        ));
    }
}

/// Every member that `members_where` takes is one of the peers, and picked.
proof fn lemma_members(peers: Seq<PeerServerView>, chosen: spec_fn(PeerServerView) -> bool)
    ensures
        forall|j: int|
            0 <= j < members_where(peers, chosen).len() ==> exists|k: int|
                0 <= k < peers.len() && chosen(peers[k]) && #[trigger] members_where(
                    peers,
                    chosen,
                )[j] == as_member(peers[k]),
    decreases peers.len(),
{
    if peers.len() > 0 {
        lemma_members(peers.drop_last(), chosen);
        let rest = members_where(peers.drop_last(), chosen);
        assert forall|j: int| 0 <= j < members_where(peers, chosen).len() implies exists|k: int|
            0 <= k < peers.len() && chosen(peers[k]) && #[trigger] members_where(peers, chosen)[j]
                == as_member(peers[k]) by {
            if j < rest.len() {
                let k = choose|k: int|
                    0 <= k < peers.drop_last().len() && chosen(peers.drop_last()[k]) && rest[j]
                        == as_member(peers.drop_last()[k]);
                assert(peers[k] == peers.drop_last()[k]);
            } else {
                assert(members_where(peers, chosen)[j] == as_member(peers[peers.len() - 1]));
            }
        }
    }
}

/// Reads the peers that a list of configurations describes.
fn read_peers(configs: &Vec<ServerConfig>) -> (res: Result<Vec<PeerServer>, ServerError>)
    ensures
        match peers_of_configs(configs@) {
            Some(peers) => res matches Ok(p) && peer_views(p@) == peers,
            None => res matches Err(e) && e == ServerError::ConfigError,
        },
{
    let mut peers: Vec<PeerServer> = Vec::new();
    let mut i: usize = 0;
    while i < configs.len()
        invariant
            i <= configs.len(),
            peers.len() == i,
            forall|k: int| 0 <= k < i ==> (#[trigger] peer_of_config(configs[k])) == Some(peers[k]@),
        decreases configs.len() - i,
    {
        match PeerServer::from_config(&configs[i]) {
            Ok(peer) => {
                peers.push(peer);
            },
            Err(e) => {
                assert(peer_of_config(configs[i as int]) is None);
                return Err(e);
            },
        }
        i += 1;
    }
    assert(peer_views(peers@) =~= peers_of_configs(configs@).unwrap());
    Ok(peers)
}

/// Whether no two of the peers have the same name.
fn ids_distinct(peers: &Vec<PeerServer>) -> (res: bool)
    ensures
        res == distinct_ids(peer_views(peers@)),
{
    let ghost all = peer_views(peers@);
    let mut i: usize = 0;
    while i < peers.len()
        invariant
            i <= peers.len(),
            all == peer_views(peers@),
            forall|a: int, b: int|
                0 <= a < i && 0 <= b < a && (#[trigger] all[a]).id == (#[trigger] all[b]).id ==> false,
        decreases peers.len() - i,
    {
        let mut j: usize = 0;
        while j < i
            invariant
                j <= i < peers.len(),
                all == peer_views(peers@),
                forall|b: int| 0 <= b < j ==> (#[trigger] all[b]).id != all[i as int].id,
            decreases i - j,
        {
            if peers[i].id.same(&peers[j].id) {
                assert(all[i as int].id == all[j as int].id);
                return false;
            }
            j += 1;
        }
        i += 1;
    }
    assert forall|a: int, b: int|
        0 <= a < all.len() && 0 <= b < all.len() && (#[trigger] all[a]).id == (
        #[trigger] all[b]).id implies a == b by {
        if a < b {
            assert(all[b].id == all[a].id);
        } else if b < a {
            assert(all[a].id == all[b].id);
        }
    }
    true
}

/// Sorts the peers by the binary strings of their prefixes.
fn sort_by_prefix(peers: &Vec<PeerServer>) -> (res: Vec<PeerServer>)
    ensures
        peer_views(res@) == sorted_by_prefix(peer_views(peers@)),
{
    let ghost all = peer_views(peers@);
    let mut sorted: Vec<PeerServer> = Vec::new();
    let mut i: usize = 0;
    while i < peers.len()
        invariant
            i <= peers.len(),
            all == peer_views(peers@),
            sorted.len() == i,
            peer_views(sorted@) == sorted_by_prefix(all.take(i as int)),
        decreases peers.len() - i,
    {
        let peer = peers[i].clone();
        let ghost before = peer_views(sorted@);
        let mut place: usize = sorted.len();
        while place > 0 && peer.prefix.sorts_before(&sorted[place - 1].prefix)
            invariant
                place <= sorted.len(),
                before == peer_views(sorted@),
                forall|k: int|
                    place <= k < before.len() ==> bits_before(
                        peer@.prefix.bits(),
                        (#[trigger] before[k]).prefix.bits(),
                    ),
            decreases place,
        {
            place -= 1;
        }
        proof {
            lemma_insert_place(before, peer@, place as int);
            assert(all.take(i + 1).drop_last() == all.take(i as int));
            assert(all.take(i + 1).last() == peer@);
        }
        sorted.insert(place, peer);
        assert(peer_views(sorted@) =~= before.insert(place as int, peer@));
        i += 1;
    }
    assert(all.take(peers.len() as int) == all);
    sorted
}

/// Whether `peer` is a superior of the server.
fn superior_to(own: &MerkleVerseServer, peer: &PeerServer) -> (res: bool)
    ensures
        res == is_superior(own@, peer@),
{
    peer.length == own.prefix.length && peer.prefix.length < own.prefix.length
        && peer.prefix.is_prefix_of(&own.prefix)
}

/// Whether `peer` is parallel to the server.
fn parallel_to(own: &MerkleVerseServer, peer: &PeerServer) -> (res: bool)
    ensures
        res == is_parallel(own@, peer@),
{
    peer.length == own.length && peer.prefix.same_bits(&own.prefix)
}

/// The peer as the member of a cluster.
fn member(peer: &PeerServer) -> (res: PeerServer)
    ensures
        res@ == as_member(peer@),
{
    PeerServer {
        connection_string: String::from_str("http://").concat(peer.connection_string.as_str()),
        prefix: peer.prefix.clone(),
        length: peer.length,
        id: peer.id.clone(),
        public_key: peer.public_key.clone(),
    }
}

/// The cluster of those of the peers that are superior (or, with `superior`
/// unset, parallel) to the server.
fn gather(own: &MerkleVerseServer, sorted: &Vec<PeerServer>, superior: bool) -> (res: Option<
    ServerCluster,
>)
    requires
        distinct_ids(peer_views(sorted@)),
    ensures
        superior ==> (match res {
            Some(c) => Some(c@),
            None => None,
        }) == cluster_of(
            members_where(peer_views(sorted@), |p: PeerServerView| is_superior(own@, p)),
        ),
        !superior ==> (match res {
            Some(c) => Some(c@),
            None => None,
        }) == cluster_of(
            members_where(peer_views(sorted@), |p: PeerServerView| is_parallel(own@, p)),
        ),
        res matches Some(c) ==> c.wf(),
{
    let ghost all = peer_views(sorted@);
    let ghost chosen = if superior {
        |p: PeerServerView| is_superior(own@, p)
    } else {
        |p: PeerServerView| is_parallel(own@, p)
    };
    let mut cluster = ServerCluster::new();
    let mut i: usize = 0;
    while i < sorted.len()
        invariant
            i <= sorted.len(),
            all == peer_views(sorted@),
            distinct_ids(all),
            chosen == if superior {
                |p: PeerServerView| is_superior(own@, p)
            } else {
                |p: PeerServerView| is_parallel(own@, p)
            },
            cluster.wf(),
            cluster@ == members_where(all.take(i as int), chosen),
        decreases sorted.len() - i,
    {
        let peer = &sorted[i];
        let picked = if superior {
            superior_to(own, peer)
        } else {
            parallel_to(own, peer)
        };
        proof {
            assert(all.take(i + 1).drop_last() == all.take(i as int));
            assert(all.take(i + 1).last() == peer@);
            assert(picked == chosen(peer@));
        }
        if picked {
            proof {
                lemma_members(all.take(i as int), chosen);
                assert forall|j: int| 0 <= j < cluster@.len() implies (#[trigger] cluster@[j]).id
                    != peer@.id by {
                    let k = choose|k: int|
                        0 <= k < all.take(i as int).len() && chosen(all.take(i as int)[k])
                            && cluster@[j] == as_member(all.take(i as int)[k]);
                    assert(all[k].id == cluster@[j].id);
                    assert(all[i as int].id == peer@.id);
                }
                assert(position_of(cluster@, as_member(peer@).id) is None);
            }
            cluster.insert(member(peer));
        }
        i += 1;
    }
    assert(all.take(sorted.len() as int) == all);
    if cluster.len() == 0 {
        None
    } else {
        Some(cluster)
    }
}

impl MerkleVerseServer {
    /// Reads a server and its fresh state from a cluster configuration: places
    /// the server among its peers and makes every peer known to the state.
    pub fn from_cluster_config(config: ServersConfig) -> (res: Result<
        (Self, MerkleVerseServerState),
        ServerError,
    >)
        ensures
            match resolved(config) {
                Some((server, state)) => res matches Ok(r) && r.0@ == server && r.1@ == state
                    && r.0.wf() && r.1.wf(),
                None => res matches Err(e) && e == ServerError::ConfigError,
            },
    {
        let configs = match config.peers {
            Some(p) => p,
            None => Vec::new(),
        };
        let peers = match read_peers(&configs) {
            Ok(p) => p,
            Err(e) => {
                return Err(e);
            },
        };
        let mut cur_srv = match Self::from_config(&config.server) {
            Ok(s) => s,
            Err(e) => {
                return Err(e);
            },
        };
        if !ids_distinct(&peers) {
            return Err(ServerError::ConfigError);
        }
        let ghost all = peer_views(peers@);
        let ghost local = cur_srv@;
        let sorted = sort_by_prefix(&peers);
        proof {
            lemma_sorted_ids(all);
        }
        let superiors = gather(&cur_srv, &sorted, true);
        let parallels = gather(&cur_srv, &sorted, false);
        proof {
            lemma_members(peer_views(sorted@), |p: PeerServerView| is_superior(local, p));
        }
        cur_srv.superior = superiors;
        cur_srv.parallel = parallels;
        let state = fresh_state(&peers);
        proof {
            let superior_members = members_where(
                peer_views(sorted@),
                |p: PeerServerView| is_superior(local, p),
            );
            assert(cur_srv@.superior == cluster_of(superior_members));
            assert forall|i: int| 0 <= i < cur_srv@.superiors().len() implies (
            #[trigger] cur_srv@.superiors()[i]).prefix.is_prefix_of(cur_srv@.prefix) by {
                let k = choose|k: int|
                    0 <= k < peer_views(sorted@).len() && is_superior(local, peer_views(sorted@)[k])
                        && superior_members[i] == as_member(peer_views(sorted@)[k]);
                assert(cur_srv@.superiors()[i] == superior_members[i]);
            }
            assert(distinct_ids(Seq::<PeerServerView>::empty()));
        }
        Ok((cur_srv, state))
    }
}

/// A fresh state that knows each of the peers.
fn fresh_state(peers: &Vec<PeerServer>) -> (state: MerkleVerseServerState)
    ensures
        state.wf(),
        state@ == (StateView {
            peer_states: known_peers(peer_views(peers@)),
            ..StateView::initial()
        }),
{
    let ghost all = peer_views(peers@);
    let mut state = MerkleVerseServerState::new();
    assert(known_peers(all.take(0)) =~= Map::<Seq<char>, RunState>::empty());
    let mut i: usize = 0;
    while i < peers.len()
        invariant
            i <= peers.len(),
            all == peer_views(peers@),
            state.wf(),
            state@ == (StateView {
                peer_states: known_peers(all.take(i as int)),
                ..StateView::initial()
            }),
        decreases peers.len() - i,
    {
        let ghost known = state@.peer_states;
        let _ = state.add_peer(peers[i].id.clone());
        proof {
            let id = all[i as int].id;
            let next = known_peers(all.take(i + 1));
            assert forall|other: Seq<char>| next.dom().contains(other) == (known.dom().contains(
                other,
            ) || other == id) by {
                if next.dom().contains(other) {
                    let k = choose|k: int|
                        0 <= k < all.take(i + 1).len() && (#[trigger] all.take(i + 1)[k]).id
                            == other;
                    if k < i {
                        assert(all.take(i as int)[k].id == other);
                    }
                }
                if known.dom().contains(other) {
                    let k = choose|k: int|
                        0 <= k < all.take(i as int).len() && (#[trigger] all.take(i as int)[k]).id
                            == other;
                    assert(all.take(i + 1)[k].id == other);
                }
                if other == id {
                    assert(all.take(i + 1)[i as int].id == other);
                }
            }
            assert(known == known_peers(all.take(i as int)));
            assert(known.insert(id, RunState::Normal).dom() =~= next.dom());
            assert(known.insert(id, RunState::Normal) =~= next);
        }
        i += 1;
    }
    assert(all.take(peers.len() as int) == all);
    state
}

/// Sorting neither adds nor renames a peer: with distinct names before, the
/// names are distinct after.
proof fn lemma_sorted_ids(peers: Seq<PeerServerView>)
    requires
        distinct_ids(peers),
    ensures
        distinct_ids(sorted_by_prefix(peers)),
        sorted_by_prefix(peers).len() == peers.len(),
        forall|j: int|
            0 <= j < peers.len() ==> exists|k: int|
                0 <= k < peers.len() && (#[trigger] sorted_by_prefix(peers)[j]) == peers[k],
    decreases peers.len(),
{
    if peers.len() > 0 {
        let rest = peers.drop_last();
        assert forall|a: int, b: int|
            0 <= a < rest.len() && 0 <= b < rest.len() && (#[trigger] rest[a]).id == (
            #[trigger] rest[b]).id implies a == b by {
            assert(peers[a].id == peers[b].id);
        }
        lemma_sorted_ids(rest);
        let sorted = sorted_by_prefix(rest);
        let peer = peers.last();
        lemma_inserted(sorted, peer);
        let place = choose|place: int|
            0 <= place <= sorted.len() && insert_by_prefix(sorted, peer) == sorted.insert(
                place,
                peer,
            );
        let now = sorted.insert(place, peer);
        assert forall|j: int| 0 <= j < peers.len() implies exists|k: int|
            0 <= k < peers.len() && (#[trigger] now[j]) == peers[k] by {
            if j < place {
                let k = choose|k: int| 0 <= k < rest.len() && sorted[j] == rest[k];
                assert(now[j] == peers[k]);
            } else if j == place {
                assert(now[j] == peers[peers.len() - 1]);
            } else {
                let k = choose|k: int| 0 <= k < rest.len() && sorted[j - 1] == rest[k];
                assert(now[j] == peers[k]);
            }
        }
        assert forall|a: int, b: int|
            0 <= a < now.len() && 0 <= b < now.len() && (#[trigger] now[a]).id == (
            #[trigger] now[b]).id implies a == b by {
            let ka = choose|k: int| 0 <= k < peers.len() && now[a] == peers[k];
            let kb = choose|k: int| 0 <= k < peers.len() && now[b] == peers[k];
            assert(peers[ka].id == peers[kb].id);
            if a != b {
                if a != place && b != place {
                    let sa = if a < place { a } else { a - 1 };
                    let sb = if b < place { b } else { b - 1 };
                    assert(sorted[sa].id == sorted[sb].id);
                } else if a == place {
                    let sb = if b < place { b } else { b - 1 };
                    let k = choose|k: int| 0 <= k < rest.len() && sorted[sb] == rest[k];
                    assert(peers[k].id == peers[peers.len() - 1].id);
                } else {
                    let sa = if a < place { a } else { a - 1 };
                    let k = choose|k: int| 0 <= k < rest.len() && sorted[sa] == rest[k];
                    assert(peers[k].id == peers[peers.len() - 1].id);
                }
            }
        }
    }
}

/// `insert_by_prefix` enters the peer at some place and moves no other.
proof fn lemma_inserted(sorted: Seq<PeerServerView>, peer: PeerServerView)
    ensures
        exists|place: int|
            0 <= place <= sorted.len() && insert_by_prefix(sorted, peer) == sorted.insert(
                place,
                peer,
            ),
    decreases sorted.len(),
{
    if sorted.len() == 0 {
        assert(seq![peer] =~= sorted.insert(0, peer));
    } else if bits_before(peer.prefix.bits(), sorted.last().prefix.bits()) {
        lemma_inserted(sorted.drop_last(), peer);
        let place = choose|place: int|
            0 <= place <= sorted.drop_last().len() && insert_by_prefix(sorted.drop_last(), peer)
                == sorted.drop_last().insert(place, peer);
        assert(sorted.drop_last().insert(place, peer).push(sorted.last()) =~= sorted.insert(
            place,
            peer,
        ));
    } else {
        assert(sorted.push(peer) =~= sorted.insert(sorted.len() as int, peer));
    }
}

/// Whether the peers are in the order of their prefixes: none comes behind a
/// peer whose prefix sorts behind its own.
pub open spec fn in_prefix_order(peers: Seq<PeerServerView>) -> bool {
    forall|i: int, j: int|
        0 <= i < j < peers.len() ==> !bits_before(
            (#[trigger] peers[j]).prefix.bits(),
            (#[trigger] peers[i]).prefix.bits(),
        )
}

/// Entering a peer into sorted peers leaves them sorted, and adds that peer
/// and no other.
pub proof fn lemma_insert_by_prefix(sorted: Seq<PeerServerView>, peer: PeerServerView)
    requires
        in_prefix_order(sorted),
    ensures
        in_prefix_order(insert_by_prefix(sorted, peer)),
        insert_by_prefix(sorted, peer).to_multiset() == sorted.to_multiset().insert(peer),
    decreases sorted.len(),
{
    broadcast use vstd::seq_lib::to_multiset_build;

    let own = peer.prefix.bits();
    let after = insert_by_prefix(sorted, peer);
    if sorted.len() == 0 {
        assert(after =~= Seq::<PeerServerView>::empty().push(peer));
        assert(sorted =~= Seq::<PeerServerView>::empty());
    } else if bits_before(own, sorted.last().prefix.bits()) {
        let rest = sorted.drop_last();
        let last = sorted.last();
        assert forall|i: int, j: int| 0 <= i < j < rest.len() implies !bits_before(
            (#[trigger] rest[j]).prefix.bits(),
            (#[trigger] rest[i]).prefix.bits(),
        ) by {
            assert(rest[j] == sorted[j] && rest[i] == sorted[i]);
        }
        lemma_insert_by_prefix(rest, peer);
        lemma_inserted(rest, peer);
        let place = choose|place: int|
            0 <= place <= rest.len() && insert_by_prefix(rest, peer) == rest.insert(place, peer);
        let inner = rest.insert(place, peer);
        lemma_bits_before_one_way(own, last.prefix.bits());
        assert forall|i: int, j: int| 0 <= i < j < after.len() implies !bits_before(
            (#[trigger] after[j]).prefix.bits(),
            (#[trigger] after[i]).prefix.bits(),
        ) by {
            if j < inner.len() {
                assert(after[j] == inner[j] && after[i] == inner[i]);
            } else {
                assert(after[j] == last);
                assert(after[i] == inner[i]);
                if i < place {
                    assert(inner[i] == sorted[i]);
                    assert(last == sorted[sorted.len() - 1]);
                } else if i > place {
                    assert(inner[i] == sorted[i - 1]);
                    assert(last == sorted[sorted.len() - 1]);
                }
            }
        }
        assert(sorted =~= rest.push(last));
    } else {
        let last = sorted.last();
        assert forall|i: int, j: int| 0 <= i < j < after.len() implies !bits_before(
            (#[trigger] after[j]).prefix.bits(),
            (#[trigger] after[i]).prefix.bits(),
        ) by {
            if j < sorted.len() {
                assert(after[j] == sorted[j] && after[i] == sorted[i]);
            } else {
                assert(after[j] == peer);
                assert(after[i] == sorted[i]);
                let other = sorted[i].prefix.bits();
                if bits_before(own, other) {
                    assert(last == sorted[sorted.len() - 1]);
                    if i < sorted.len() - 1 {
                        assert(!bits_before(last.prefix.bits(), other));
                    }
                    lemma_bits_comparable(last.prefix.bits(), own);
                    if bits_before(last.prefix.bits(), own) {
                        lemma_bits_before_transitive(last.prefix.bits(), own, other);
                    }
                }
            }
        }
    }
}

/// Sorting by prefix puts the peers in the order of their prefixes, and
/// neither adds nor drops one.
pub proof fn lemma_sorted_by_prefix(peers: Seq<PeerServerView>)
    ensures
        in_prefix_order(sorted_by_prefix(peers)),
        sorted_by_prefix(peers).to_multiset() == peers.to_multiset(),
    decreases peers.len(),
{
    broadcast use vstd::seq_lib::to_multiset_build;

    if peers.len() == 0 {
        assert(peers =~= Seq::<PeerServerView>::empty());
    } else {
        lemma_sorted_by_prefix(peers.drop_last());
        lemma_insert_by_prefix(sorted_by_prefix(peers.drop_last()), peers.last());
        assert(peers =~= peers.drop_last().push(peers.last()));
    }
}

} // verus!
