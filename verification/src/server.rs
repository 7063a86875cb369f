//! A server's place in the prefix hierarchy: addresses, peers, clusters.

pub mod mverse;
pub mod synchronization;
pub mod transactions;
pub mod validation;

use crate::error::ServerError;
use crate::server::validation::{PrivateKey, PublicKey, PublicKeyView};
use crate::utils;
use crate::utils::{binary_digits, canonical_bit, location_of};
use vstd::prelude::*;
use vstd::std_specs::convert::FromSpecImpl;
use vstd::string::StringExecFns;

verus! {

/// An address in the tree: a bit string, held as bytes and a bit-length. Its
/// bits are the big-endian expansion of the bytes, cut to the last `length` bits
/// (or filled up with leading zero bits).
#[derive(Debug)]
pub struct Index {
    pub index: Vec<u8>,
    pub length: u32,
}

pub ghost struct IndexView {
    pub index: Seq<u8>,
    pub length: u32,
}

impl IndexView {
    /// The bits of the address, most significant first.
    pub open spec fn bits(self) -> Seq<bool> {
        Seq::new(self.length as nat, |i: int| canonical_bit(self.index, self.length as nat, i))
    }

    /// Whether the bits of this address begin those of `other`.
    pub open spec fn is_prefix_of(self, other: IndexView) -> bool {
        self.bits().is_prefix_of(other.bits())
    }
}

/// Whether `a` and `b` agree before place `k`, where `a` ends and `b` goes on, or
/// where `a` has a zero and `b` a one.
pub open spec fn first_difference(a: Seq<bool>, b: Seq<bool>, k: int) -> bool {
    &&& 0 <= k <= a.len()
    &&& k <= b.len()
    &&& forall|j: int| 0 <= j < k ==> a[j] == b[j]
    &&& (k == a.len() && k < b.len()) || (k < a.len() && k < b.len() && !a[k] && b[k])
}

/// Whether the binary string `a` sorts before `b`: the order of their digits,
/// a string before each of its extensions.
pub open spec fn bits_before(a: Seq<bool>, b: Seq<bool>) -> bool {
    exists|k: int| first_difference(a, b, k)
}

/// Of two binary strings one sorts before the other, or they are the same.
pub proof fn lemma_bits_comparable(a: Seq<bool>, b: Seq<bool>)
    ensures
        bits_before(a, b) || a == b || bits_before(b, a),
{
    lemma_bits_comparable_from(a, b, 0);
}

proof fn lemma_bits_comparable_from(a: Seq<bool>, b: Seq<bool>, i: int)
    requires
        0 <= i <= a.len(),
        i <= b.len(),
        forall|j: int| 0 <= j < i ==> a[j] == b[j],
    ensures
        bits_before(a, b) || a == b || bits_before(b, a),
    decreases a.len() - i,
{
    if i == a.len() {
        if i == b.len() {
            assert(a =~= b);
        } else {
            assert(first_difference(a, b, i));
        }
    } else if i == b.len() {
        assert(first_difference(b, a, i));
    } else if a[i] == b[i] {
        lemma_bits_comparable_from(a, b, i + 1);
    } else if !a[i] {
        assert(first_difference(a, b, i));
    } else {
        assert(first_difference(b, a, i));
    }
}

/// No binary string sorts before one that sorts before it: none sorts before
/// itself.
pub proof fn lemma_bits_before_one_way(a: Seq<bool>, b: Seq<bool>)
    requires
        bits_before(a, b),
    ensures
        !bits_before(b, a),
{
    let k = choose|k: int| first_difference(a, b, k);
    assert forall|l: int| !first_difference(b, a, l) by {
        if first_difference(b, a, l) {
            if k < l {
                assert(b[k] == a[k]);
            } else if l < k {
                assert(a[l] == b[l]);
            }
        }
    }
}

/// What sorts before a binary string sorts before all that the string sorts
/// before.
pub proof fn lemma_bits_before_transitive(a: Seq<bool>, b: Seq<bool>, c: Seq<bool>)
    requires
        bits_before(a, b),
        bits_before(b, c),
    ensures
        bits_before(a, c),
{
    let k = choose|k: int| first_difference(a, b, k);
    let l = choose|l: int| first_difference(b, c, l);
    if k < l {
        assert forall|j: int| 0 <= j < k implies a[j] == c[j] by {
            assert(a[j] == b[j] && b[j] == c[j]);
        }
        if k < a.len() {
            assert(b[k] == c[k]);
        }
        assert(first_difference(a, c, k));
    } else if k == l {
        assert forall|j: int| 0 <= j < k implies a[j] == c[j] by {
            assert(a[j] == b[j] && b[j] == c[j]);
        }
        assert(first_difference(a, c, k));
    } else {
        assert forall|j: int| 0 <= j < l implies a[j] == c[j] by {
            assert(a[j] == b[j] && b[j] == c[j]);
        }
        assert(a[l] == b[l]);
        assert(first_difference(a, c, l));
    }
}

impl View for Index {
    type V = IndexView;

    open spec fn view(&self) -> IndexView {
        IndexView { index: self.index@, length: self.length }
    }
}

impl Clone for Index {
    fn clone(&self) -> (res: Self)
        ensures
            res@ == self@,
    {
        Index { index: self.index.clone(), length: self.length }
    }
}

impl Default for Index {
    /// The empty address: the root of the tree.
    fn default() -> (res: Self)
        ensures
            res@ == (IndexView { index: Seq::<u8>::empty(), length: 0 }),
    {
        Index { index: Vec::new(), length: 0 }
    }
}

impl From<Vec<u8>> for Index {
    /// A key as an address: its bytes, with their number as the length.
    fn from(value: Vec<u8>) -> (res: Self) {
        Index { length: value.len() as u32, index: value }
    }
}

impl FromSpecImpl<Vec<u8>> for Index {
    open spec fn obeys_from_spec() -> bool {
        true
    }

    open spec fn from_spec(value: Vec<u8>) -> Self {
        Index { length: value.len() as u32, index: value }
    }
}

impl Index {
    /// Reads an address of `length` bits from base64.
    pub fn from_b64(b64: &str, length: u32) -> (res: Result<Self, ServerError>)
        ensures
            match location_of(b64@, length as nat) {
                Some(bytes) => res matches Ok(index) && index@ == (IndexView {
                    index: bytes,
                    length,
                }),
                None => res matches Err(e) && e == ServerError::ConfigError,
            },
            // Encoding what was decoded, without the padding, gives the text back.
            res matches Ok(index) ==> (utils::b64_decoding(b64@) matches Some(d) && d.len()
                <= index@.index.len() && utils::b64_encoding(
                index@.index.skip(index@.index.len() - d.len()),
            ) == b64@),
    {
        match utils::b64_to_loc(b64, length as usize) {
            Ok(index) => Ok(Index { index, length }),
            Err(e) => Err(e),
        }
    }

    /// The canonical binary string: one digit for each bit.
    pub fn to_binstring(&self) -> (res: Result<String, ServerError>)
        ensures
            res matches Ok(text) && text@ == binary_digits(self@.index, self@.length as nat),
    {
        Ok(utils::binary_string(self.index.as_slice(), self.length as usize))
    }

    /// Bit `i` of the address.
    pub fn bit(&self, i: u32) -> (bit: bool)
        requires
            i < self.length,
        ensures
            bit == self@.bits()[i as int],
    {
        utils::get_bit(self.index.as_slice(), self.length as usize, i as usize)
    }

    /// Whether two addresses have the same bytes and the same length.
    pub fn same(&self, other: &Index) -> (res: bool)
        ensures
            res == (self@ == other@),
    {
        let equal = self.index == other.index;
        assert(equal == (self.index@ =~= other.index@));
        equal && self.length == other.length
    }

    /// Whether the bits of this address begin those of `other`.
    pub fn is_prefix_of(&self, other: &Index) -> (res: bool)
        ensures
            res == self@.is_prefix_of(other@),
    {
        if self.length > other.length {
            return false;
        }
        let mut i: u32 = 0;
        while i < self.length
            invariant
                i <= self.length <= other.length,
                forall|k: int| 0 <= k < i ==> self@.bits()[k] == other@.bits()[k],
            decreases self.length - i,
        {
            if self.bit(i) != other.bit(i) {
                assert(self@.bits()[i as int] != other@.bits()[i as int]);
                return false;
            }
            i += 1;
        }
        assert(self@.bits() =~= other@.bits().subrange(0, self@.bits().len() as int));
        true
    }

    /// Whether the binary string of this address sorts before that of `other`.
    pub fn sorts_before(&self, other: &Index) -> (res: bool)
        ensures
            res == bits_before(self@.bits(), other@.bits()),
    {
        let ghost a = self@.bits();
        let ghost b = other@.bits();
        let mut i: u32 = 0;
        while i < self.length && i < other.length
            invariant
                i <= self.length,
                i <= other.length,
                a == self@.bits(),
                b == other@.bits(),
                forall|j: int| 0 <= j < i ==> a[j] == b[j],
            decreases self.length - i,
        {
            let x = self.bit(i);
            let y = other.bit(i);
            if x != y {
                proof {
                    if !x {
                        assert(first_difference(a, b, i as int));
                    } else {
                        assert forall|k: int| !first_difference(a, b, k) by {
                            if first_difference(a, b, k) {
                                if k > i {
                                    assert(a[i as int] == b[i as int]);
                                } else if k < i {
                                    assert(a[k] == b[k]);
                                }
                            }
                        }
                    }
                }
                return !x;
            }
            i += 1;
        }
        proof {
            if self.length < other.length {
                assert(first_difference(a, b, i as int));
            } else {
                assert forall|k: int| !first_difference(a, b, k) by {
                    if first_difference(a, b, k) {
                        if k < i {
                            assert(a[k] == b[k]);
                        }
                    }
                }
            }
        }
        self.length < other.length
    }

    /// Whether two addresses have the same bits.
    pub fn same_bits(&self, other: &Index) -> (res: bool)
        ensures
            res == (self@.bits() == other@.bits()),
    {
        let res = self.length == other.length && self.is_prefix_of(other);
        proof {
            assert(self@.bits().len() == self.length && other@.bits().len() == other.length);
            if res {
                assert(self@.bits() =~= other@.bits());
            } else if self.length == other.length {
                assert(other@.bits().subrange(0, other@.bits().len() as int) =~= other@.bits());
            }
        }
        res
    }
}

/// The name of a server, unique within a deployment.
#[derive(Debug)]
pub struct ServerId(pub String);

impl View for ServerId {
    type V = Seq<char>;

    open spec fn view(&self) -> Seq<char> {
        self.0@
    }
}

impl Clone for ServerId {
    fn clone(&self) -> (res: Self)
        ensures
            res@ == self@,
    {
        ServerId(self.0.clone())
    }
}

impl From<String> for ServerId {
    fn from(value: String) -> (res: Self) {
        ServerId(value)
    }
}

impl FromSpecImpl<String> for ServerId {
    open spec fn obeys_from_spec() -> bool {
        true
    }

    open spec fn from_spec(value: String) -> Self {
        ServerId(value)
    }
}

impl ServerId {
    /// Whether two names are the same.
    pub fn same(&self, other: &ServerId) -> (res: bool)
        ensures
            res == (self@ == other@),
    {
        self.0 == other.0
    }
}

/// What a server knows of a peer.
#[derive(Debug)]
pub struct PeerServer {
    pub id: ServerId,
    pub connection_string: String,
    pub prefix: Index,
    pub length: u32,
    pub public_key: PublicKey,
}

pub ghost struct PeerServerView {
    pub id: Seq<char>,
    pub connection_string: Seq<char>,
    pub prefix: IndexView,
    pub length: u32,
    pub public_key: PublicKeyView,
}

impl View for PeerServer {
    type V = PeerServerView;

    open spec fn view(&self) -> PeerServerView {
        PeerServerView {
            id: self.id@,
            connection_string: self.connection_string@,
            prefix: self.prefix@,
            length: self.length,
            public_key: self.public_key@,
        }
    }
}

impl Clone for PeerServer {
    fn clone(&self) -> (res: Self)
        ensures
            res@ == self@,
    {
        PeerServer {
            id: self.id.clone(),
            connection_string: self.connection_string.clone(),
            prefix: self.prefix.clone(),
            length: self.length,
            public_key: self.public_key.clone(),
        }
    }
}

/// The views of a sequence of peers.
pub open spec fn peer_views(peers: Seq<PeerServer>) -> Seq<PeerServerView> {
    peers.map_values(|p: PeerServer| p@)
}

/// No two peers of the sequence have the same name.
pub open spec fn distinct_ids(peers: Seq<PeerServerView>) -> bool {
    forall|i: int, j: int|
        0 <= i < peers.len() && 0 <= j < peers.len() && #[trigger] peers[i].id
            == #[trigger] peers[j].id ==> i == j
}

/// The place of the peer named `id`, if the sequence has one.
pub open spec fn position_of(peers: Seq<PeerServerView>, id: Seq<char>) -> Option<int> {
    if exists|i: int| 0 <= i < peers.len() && #[trigger] peers[i].id == id {
        Some(choose|i: int| 0 <= i < peers.len() && #[trigger] peers[i].id == id)
    } else {
        None
    }
}

/// The sequence with `peer` in it: in the place of the peer of the same name,
/// or behind the others where there is none.
pub open spec fn with_peer(peers: Seq<PeerServerView>, peer: PeerServerView) -> Seq<
    PeerServerView,
> {
    match position_of(peers, peer.id) {
        Some(i) => peers.update(i, peer),
        None => peers.push(peer),
    }
}

/// The peer as a member of a cluster: reached over http.
pub open spec fn as_member(peer: PeerServerView) -> PeerServerView {
    PeerServerView { connection_string: "http://"@ + peer.connection_string, ..peer }
}

/// The cluster that holds `peers`, each as a member, entered one after the other.
pub open spec fn members_of(peers: Seq<PeerServerView>) -> Seq<PeerServerView>
    decreases peers.len(),
{
    if peers.len() == 0 {
        Seq::empty()
    } else {
        with_peer(members_of(peers.drop_last()), as_member(peers.last()))
    }
}

/// A set of servers that own the same sub-tree, each under its name.
#[derive(Debug)]
pub struct ServerCluster {
    servers: Vec<PeerServer>,
}

impl View for ServerCluster {
    type V = Seq<PeerServerView>;

    closed spec fn view(&self) -> Seq<PeerServerView> {
        peer_views(self.servers@)
    }
}

impl Clone for ServerCluster {
    fn clone(&self) -> (res: Self)
        ensures
            res@ == self@,
    {
        let mut servers: Vec<PeerServer> = Vec::new();
        let mut i: usize = 0;
        while i < self.servers.len()
            invariant
                i <= self.servers.len(),
                peer_views(servers@) == peer_views(self.servers@).take(i as int),
            decreases self.servers.len() - i,
        {
            let ghost copied = servers@;
            let copy = self.servers[i].clone();
            servers.push(copy);
            i += 1;
            assert(peer_views(servers@) =~= peer_views(copied).push(copy@));
            assert(peer_views(servers@) =~= peer_views(self.servers@).take(i as int));
        }
        assert(peer_views(self.servers@).take(self.servers.len() as int) == peer_views(
            self.servers@,
        ));
        ServerCluster { servers }
    }
}

impl ServerCluster {
    /// No two servers of the cluster have the same name.
    pub open spec fn wf(&self) -> bool {
        distinct_ids(self@)
    }

    /// The place of the server named `id`.
    fn find(&self, id: &ServerId) -> (res: Option<usize>)
        ensures
            match res {
                Some(i) => i < self@.len() && self@[i as int].id == id@,
                None => forall|k: int| 0 <= k < self@.len() ==> (#[trigger] self@[k]).id != id@,
            },
    {
        let mut i: usize = 0;
        while i < self.servers.len()
            invariant
                i <= self.servers.len(),
                forall|k: int| 0 <= k < i ==> (#[trigger] self@[k]).id != id@,
            decreases self.servers.len() - i,
        {
            if self.servers[i].id.same(id) {
                return Some(i);
            }
            i += 1;
        }
        None
    }

    /// The server named `id`, if the cluster has it.
    pub fn get_server(&self, id: &ServerId) -> (res: Option<&PeerServer>)
        requires
            self.wf(),
        ensures
            match position_of(self@, id@) {
                Some(i) => res matches Some(p) && p@ == self@[i],
                None => res is None,
            },
    {
        match self.find(id) {
            Some(i) => {
                assert(self@[i as int].id == id@);
                Some(&self.servers[i])
            },
            None => None,
        }
    }

    /// An empty cluster.
    pub fn new() -> (res: Self)
        ensures
            res@ == Seq::<PeerServerView>::empty(),
            res.wf(),
    {
        let res = Self { servers: Vec::new() };
        assert(res@ =~= Seq::<PeerServerView>::empty());
        res
    }

    /// The number of servers.
    pub fn len(&self) -> (res: usize)
        ensures
            res == self@.len(),
    {
        self.servers.len()
    }

    /// Server `i` of the cluster.
    pub fn server(&self, i: usize) -> (res: &PeerServer)
        requires
            i < self@.len(),
        ensures
            res@ == self@[i as int],
    {
        &self.servers[i]
    }

    /// Enters a server, in the place of the one of the same name if there is one.
    pub fn insert(&mut self, server: PeerServer)
        requires
            old(self).wf(),
        ensures
            final(self).wf(),
            final(self)@ == with_peer(old(self)@, server@),
    {
        let ghost before = self@;
        let ghost entered = server@;
        match self.find(&server.id) {
            Some(i) => {
                assert(before[i as int].id == entered.id);
                self.servers[i] = server;
                assert(self@ =~= before.update(i as int, entered));
                assert forall|a: int, b: int|
                    0 <= a < self@.len() && 0 <= b < self@.len() && #[trigger] self@[a].id
                        == #[trigger] self@[b].id implies a == b by {
                    assert(self@[a].id == before[a].id);
                    assert(self@[b].id == before[b].id);
                }
            },
            None => {
                self.servers.push(server);
                assert(self@ =~= before.push(entered));
                assert(position_of(before, entered.id) is None);
                assert forall|a: int, b: int|
                    0 <= a < self@.len() && 0 <= b < self@.len() && #[trigger] self@[a].id
                        == #[trigger] self@[b].id implies a == b by {
                    if a < before.len() {
                        assert(self@[a].id == before[a].id);
                    }
                    if b < before.len() {
                        assert(self@[b].id == before[b].id);
                    }
                }
            },
        }
    }
}

impl ServerCluster {
    /// The cluster of the given servers, each reached over http.
    pub fn from(servers: Vec<PeerServer>) -> (res: Self)
        ensures
            res@ == members_of(peer_views(servers@)),
            res.wf(),
    {
        let mut cluster = ServerCluster::new();
        let mut i: usize = 0;
        while i < servers.len()
            invariant
                i <= servers.len(),
                cluster.wf(),
                cluster@ == members_of(peer_views(servers@).take(i as int)),
            decreases servers.len() - i,
        {
            let srv = &servers[i];
            let member = PeerServer {
                connection_string: String::from_str("http://").concat(
                    srv.connection_string.as_str(),
                ),
                prefix: srv.prefix.clone(),
                length: srv.length,
                id: srv.id.clone(),
                public_key: srv.public_key.clone(),
            };
            proof {
                let all = peer_views(servers@);
                assert(all.take(i + 1).drop_last() == all.take(i as int));
                assert(all.take(i + 1).last() == all[i as int]);
                assert(member@ == as_member(all[i as int]));
            }
            cluster.insert(member);
            i += 1;
        }
        assert(peer_views(servers@).take(servers.len() as int) == peer_views(servers@));
        cluster
    }
}

/// This server: its place in the prefix hierarchy, its clusters and its keys.
pub struct MerkleVerseServer {
    inner_dst: String,
    pub connection_string: String,
    pub id: ServerId,
    prefix: Index,
    length: u32,
    superior: Option<ServerCluster>,
    parallel: Option<ServerCluster>,
    epoch_interval: u32,
    private_key: PrivateKey,
    public_key: PublicKey,
}

pub ghost struct MerkleVerseServerView {
    pub inner_dst: Seq<char>,
    pub connection_string: Seq<char>,
    pub id: Seq<char>,
    pub prefix: IndexView,
    pub length: u32,
    pub superior: Option<Seq<PeerServerView>>,
    pub parallel: Option<Seq<PeerServerView>>,
    pub epoch_interval: u32,
    pub private_key: Seq<u8>,
    pub public_key: PublicKeyView,
}

impl MerkleVerseServerView {
    /// In neither cluster do two servers have the same name, and the prefix of
    /// every superior begins this server's prefix.
    pub open spec fn wf(self) -> bool {
        &&& distinct_ids(self.parallels())
        &&& distinct_ids(self.superiors())
        &&& forall|i: int|
            0 <= i < self.superiors().len() ==> (#[trigger] self.superiors()[i]).prefix.is_prefix_of(
                self.prefix,
            )
    }

    /// The servers of the parallel cluster; none where there is no such cluster.
    pub open spec fn parallels(self) -> Seq<PeerServerView> {
        match self.parallel {
            Some(servers) => servers,
            None => Seq::empty(),
        }
    }

    /// The servers of the superior cluster; none where there is no such cluster.
    pub open spec fn superiors(self) -> Seq<PeerServerView> {
        match self.superior {
            Some(servers) => servers,
            None => Seq::empty(),
        }
    }
}

impl View for MerkleVerseServer {
    type V = MerkleVerseServerView;

    closed spec fn view(&self) -> MerkleVerseServerView {
        MerkleVerseServerView {
            inner_dst: self.inner_dst@,
            connection_string: self.connection_string@,
            id: self.id@,
            prefix: self.prefix@,
            length: self.length,
            superior: match self.superior {
                Some(c) => Some(c@),
                None => None,
            },
            parallel: match self.parallel {
                Some(c) => Some(c@),
                None => None,
            },
            epoch_interval: self.epoch_interval,
            private_key: self.private_key@,
            public_key: self.public_key@,
        }
    }
}

impl MerkleVerseServer {
    /// The clusters are well-formed: see `MerkleVerseServerView::wf`.
    pub open spec fn wf(&self) -> bool {
        self@.wf()
    }

    /// The name that this server presents to its peers.
    pub fn server_identity(&self) -> (res: crate::grpc_handler::outer::ServerIdentity)
        ensures
            res.server_id@ == self@.id,
    {
        crate::grpc_handler::outer::ServerIdentity { server_id: self.id.0.clone() }
    }

    /// The parallel cluster, if the server has one.
    pub fn parallel(&self) -> (res: Option<&ServerCluster>)
        ensures
            match res {
                Some(c) => self@.parallel == Some(c@),
                None => self@.parallel is None,
            },
    {
        self.parallel.as_ref()
    }

    /// The superior cluster, if the server has one.
    pub fn superior(&self) -> (res: Option<&ServerCluster>)
        ensures
            match res {
                Some(c) => self@.superior == Some(c@),
                None => self@.superior is None,
            },
    {
        self.superior.as_ref()
    }

    /// The address of the sub-tree that this server owns.
    pub fn prefix(&self) -> (res: &Index)
        ensures
            res@ == self@.prefix,
    {
        &self.prefix
    }

    /// The bit-length of the keys that this server stores below its prefix.
    pub fn length(&self) -> (res: u32)
        ensures
            res == self@.length,
    {
        self.length
    }

    /// Where the inner provider is reached.
    pub fn inner_dst(&self) -> (res: &String)
        ensures
            res@ == self@.inner_dst,
    {
        &self.inner_dst
    }

    /// The epoch interval in milliseconds.
    pub fn epoch_interval(&self) -> (res: u32)
        ensures
            res == self@.epoch_interval,
    {
        self.epoch_interval
    }

    /// The public keys under which peers know this server.
    pub fn public_key(&self) -> (res: &PublicKey)
        ensures
            res@ == self@.public_key,
    {
        &self.public_key
    }
}

} // verus!
