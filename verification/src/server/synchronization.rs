//! The epoch state of a server and the protocol engine that moves it: prepare,
//! signatures, commit, and the transactions of clients and peers.

use crate::error::ServerError;
use crate::grpc_handler::outer::{
    ClientTransactionRequest, ClientTransactionRequestView, Epoch, PeerCommitRequest,
    PeerCommitRequestView, PeerPrepareRequest, PeerPrepareRequestView, PeerTransactionRequest,
    PeerTransactionRequestView, TransactionRequest, TransactionRequestView, TransactionType,
};
use crate::server::mverse::relative_to;
use crate::server::transactions::{
    bucket_of, lemma_pool_stays_set, offer_answer, pool_from, pool_is_set, pool_with, views,
    TransactionPool, TransactionView,
};
use crate::server::validation::{
    bls_accepts, bls_aggregate_of, bls_signature_decodes, bls_signature_of,
    ed25519_signature_of, peer_check, request_message, BlsSignature,
};
use crate::server::{
    MerkleVerseServer, MerkleVerseServerView, PeerServerView, ServerCluster, ServerId,
};
use std::collections::HashMap;
use vstd::prelude::*;

verus! {

/// A prepare is due this many milliseconds after the last commit.
pub const PREPARE_AFTER: u64 = 1000;

/// A commit is due this many milliseconds after the last prepare.
pub const COMMIT_AFTER: u64 = 1000;

/// The watchers look at the state every so many milliseconds.
pub const LOOP_INTERVAL: u64 = 1000;

/// No prepare is triggered on fewer pending transactions.
pub const MIN_TRANSACTIONS: usize = 1;

/// This many pending transactions trigger a prepare before its time.
pub const MAX_TRANSACTIONS: usize = 20;

/// A waiting client gives up after this many wake-ups without its commit.
pub const MAX_WAKE_UPS: u8 = 3;

/// Where a server stands in the commit of an epoch.
#[derive(Debug, Clone, Copy, PartialEq, Eq, Structural)]
pub enum RunState {
    Prepare(u64),
    Normal,
}

impl Default for RunState {
    fn default() -> (res: Self)
        ensures
            res == RunState::Normal,
    {
        RunState::Normal
    }
}

/// The pairwise aggregate of signatures, in the order in which they came.
pub open spec fn aggregate_of(signatures: Seq<Seq<u8>>) -> Seq<u8>
    decreases signatures.len(),
{
    if signatures.len() == 0 {
        Seq::empty()
    } else if signatures.len() == 1 {
        signatures[0]
    } else {
        bls_aggregate_of(aggregate_of(signatures.drop_last()), signatures.last())
    }
}

/// The signatures that a cluster has gathered over the root of one epoch.
pub struct MultiSig {
    epoch: u64,
    root: Vec<u8>,
    aggregate: BlsSignature,
    signatures: Vec<(ServerId, BlsSignature)>,
}

pub ghost struct MultiSigView {
    pub epoch: u64,
    pub root: Seq<u8>,
    pub aggregate: Seq<u8>,
    pub signatures: Seq<(Seq<char>, Seq<u8>)>,
}

impl MultiSigView {
    /// The signatures alone, in the order in which they came.
    pub open spec fn signature_bytes(self) -> Seq<Seq<u8>> {
        self.signatures.map_values(|s: (Seq<char>, Seq<u8>)| s.1)
    }

    /// Whether the server named `id` has signed.
    pub open spec fn signed_by(self, id: Seq<char>) -> bool {
        exists|i: int| 0 <= i < self.signatures.len() && (#[trigger] self.signatures[i]).0 == id
    }

    /// There is a signature, no server has signed twice, and the aggregate is that
    /// of exactly the signatures held.
    pub open spec fn wf(self) -> bool {
        &&& self.signatures.len() > 0
        &&& forall|i: int, j: int|
            0 <= i < self.signatures.len() && 0 <= j < self.signatures.len() && (
            #[trigger] self.signatures[i]).0 == (#[trigger] self.signatures[j]).0 ==> i == j
        &&& self.aggregate == aggregate_of(self.signature_bytes())
    }

    /// The record with its first signature.
    pub open spec fn first(
        epoch: u64,
        root: Seq<u8>,
        id: Seq<char>,
        signature: Seq<u8>,
    ) -> MultiSigView {
        MultiSigView { epoch, root, aggregate: signature, signatures: seq![(id, signature)] }
    }

    /// The record after the server named `id` offered `signature`: unchanged
    /// where that server has signed already, else with the signature entered and
    /// aggregated.
    pub open spec fn with_signature(self, id: Seq<char>, signature: Seq<u8>) -> MultiSigView {
        if self.signed_by(id) {
            self
        } else {
            MultiSigView {
                aggregate: bls_aggregate_of(self.aggregate, signature),
                signatures: self.signatures.push((id, signature)),
                ..self
            }
        }
    }
}

impl View for MultiSig {
    type V = MultiSigView;

    closed spec fn view(&self) -> MultiSigView {
        MultiSigView {
            epoch: self.epoch,
            root: self.root@,
            aggregate: self.aggregate@,
            signatures: self.signatures@.map_values(|s: (ServerId, BlsSignature)| (s.0@, s.1@)),
        }
    }
}

impl MultiSig {
    /// The record with its first signature.
    pub fn new(epoch: u64, root: Vec<u8>, id: ServerId, signature: BlsSignature) -> (res: Self)
        ensures
            res@ == MultiSigView::first(epoch, root@, id@, signature@),
            res@.wf(),
    {
        let mut signatures: Vec<(ServerId, BlsSignature)> = Vec::new();
        let aggregate = signature.clone();
        signatures.push((id, signature));
        let res = MultiSig { epoch, root, aggregate, signatures };
        proof {
            assert(res@.signatures =~= seq![(id@, signature@)]);
            assert(res@.signature_bytes() =~= seq![signature@]);
        }
        res
    }

    /// The epoch whose root was signed.
    pub fn epoch(&self) -> (res: u64)
        ensures
            res == self@.epoch,
    {
        self.epoch
    }

    /// The root that was signed.
    pub fn root(&self) -> (res: &Vec<u8>)
        ensures
            res@ == self@.root,
    {
        &self.root
    }

    /// The aggregate of the signatures.
    pub fn aggregate(&self) -> (res: &BlsSignature)
        ensures
            res@ == self@.aggregate,
    {
        &self.aggregate
    }

    /// How many servers have signed.
    pub fn signers(&self) -> (res: usize)
        ensures
            res == self@.signatures.len(),
    {
        self.signatures.len()
    }

    /// The signature of the server named `id`, if it has signed.
    pub fn signature_of(&self, id: &ServerId) -> (res: Option<&BlsSignature>)
        ensures
            res is Some <==> self@.signed_by(id@),
            res matches Some(s) ==> exists|i: int|
                0 <= i < self@.signatures.len() && #[trigger] self@.signatures[i] == (id@, s@),
    {
        let mut i: usize = 0;
        while i < self.signatures.len()
            invariant
                i <= self.signatures.len(),
                forall|k: int| 0 <= k < i ==> (#[trigger] self@.signatures[k]).0 != id@,
            decreases self.signatures.len() - i,
        {
            if self.signatures[i].0.same(id) {
                assert(self@.signatures[i as int] == (id@, self.signatures[i as int].1@));
                return Some(&self.signatures[i].1);
            }
            i += 1;
        }
        None
    }

    /// Enters the signature of the server named `id` and aggregates it, unless
    /// that server has signed already.
    pub fn merge(&mut self, id: ServerId, signature: BlsSignature)
        requires
            old(self)@.wf(),
        ensures
            final(self)@ == old(self)@.with_signature(id@, signature@),
            final(self)@.wf(),
    {
        if self.signature_of(&id).is_some() {
            return ;
        }
        let ghost before = self@;
        self.aggregate = self.aggregate.aggregate(&signature);
        self.signatures.push((id, signature));
        proof {
            assert(self@.signatures =~= before.signatures.push((id@, signature@)));
            assert(self@.signature_bytes() =~= before.signature_bytes().push(signature@));
            assert(self@.signature_bytes().drop_last() =~= before.signature_bytes());
            assert(self@ == before.with_signature(id@, signature@));
        }
    }
}

/// The epoch records after the server named `id` offered `signature` over `root`
/// at `epoch`: a new record where the epoch had none.
pub open spec fn merged(
    multi_sigs: Map<u64, MultiSigView>,
    epoch: u64,
    root: Seq<u8>,
    id: Seq<char>,
    signature: Seq<u8>,
) -> Map<u64, MultiSigView> {
    if multi_sigs.contains_key(epoch) {
        multi_sigs.insert(epoch, multi_sigs[epoch].with_signature(id, signature))
    } else {
        multi_sigs.insert(epoch, MultiSigView::first(epoch, root, id, signature))
    }
}

/// The last run state that each known peer reported.
pub struct PeerStates {
    entries: Vec<(ServerId, RunState)>,
}

impl View for PeerStates {
    type V = Map<Seq<char>, RunState>;

    closed spec fn view(&self) -> Map<Seq<char>, RunState> {
        Map::new(
            |id: Seq<char>| self.holds(id),
            |id: Seq<char>| self.entries[self.place(id)].1,
        )
    }
}

impl PeerStates {
    closed spec fn holds(&self, id: Seq<char>) -> bool {
        exists|i: int| 0 <= i < self.entries.len() && (#[trigger] self.entries[i]).0@ == id
    }

    closed spec fn place(&self, id: Seq<char>) -> int {
        choose|i: int| 0 <= i < self.entries.len() && (#[trigger] self.entries[i]).0@ == id
    }

    /// No peer is entered twice.
    pub closed spec fn wf(&self) -> bool {
        forall|i: int, j: int|
            0 <= i < self.entries.len() && 0 <= j < self.entries.len() && (
            #[trigger] self.entries[i]).0@ == (#[trigger] self.entries[j]).0@ ==> i == j
    }

    /// No peer is known.
    pub fn new() -> (res: Self)
        ensures
            res.wf(),
            res@ == Map::<Seq<char>, RunState>::empty(),
    {
        let res = PeerStates { entries: Vec::new() };
        assert(res@ =~= Map::<Seq<char>, RunState>::empty());
        res
    }

    fn find(&self, id: &ServerId) -> (res: Option<usize>)
        ensures
            res is Some <==> self.holds(id@),
            res matches Some(i) ==> i < self.entries.len() && self.entries[i as int].0@ == id@,
    {
        let mut i: usize = 0;
        while i < self.entries.len()
            invariant
                i <= self.entries.len(),
                forall|k: int| 0 <= k < i ==> (#[trigger] self.entries[k]).0@ != id@,
            decreases self.entries.len() - i,
        {
            if self.entries[i].0.same(id) {
                return Some(i);
            }
            i += 1;
        }
        None
    }

    /// What the peer named `id` reported last, if it is known.
    pub fn get(&self, id: &ServerId) -> (res: Option<RunState>)
        requires
            self.wf(),
        ensures
            res == if self@.contains_key(id@) {
                Some(self@[id@])
            } else {
                None
            },
    {
        match self.find(id) {
            Some(i) => {
                assert(self.entries[self.place(id@)].0@ == id@);
                Some(self.entries[i].1)
            },
            None => None,
        }
    }

    /// Records what the peer named `id` reported.
    pub fn set(&mut self, id: ServerId, state: RunState)
        requires
            old(self).wf(),
        ensures
            final(self).wf(),
            final(self)@ == old(self)@.insert(id@, state),
    {
        let ghost before = *self;
        match self.find(&id) {
            Some(i) => {
                let ghost name = id@;
                self.entries[i] = (id, state);
                proof {
                    assert forall|a: int, b: int|
                        0 <= a < self.entries.len() && 0 <= b < self.entries.len() && (
                        #[trigger] self.entries[a]).0@ == (#[trigger] self.entries[b]).0@ implies a
                        == b by {
                        assert(self.entries[a].0@ == before.entries[a].0@);
                        assert(self.entries[b].0@ == before.entries[b].0@);
                    }
                    assert forall|other: Seq<char>| self.holds(other) == before.holds(other) by {
                        if self.holds(other) {
                            let k = self.place(other);
                            assert(before.entries[k].0@ == other);
                        }
                        if before.holds(other) {
                            let k = before.place(other);
                            assert(self.entries[k].0@ == other);
                        }
                    }
                    assert forall|other: Seq<char>| self.holds(other) implies self.entries[self.place(
                        other,
                    )].1 == (if other == name {
                        state
                    } else {
                        before.entries[before.place(other)].1
                    }) by {
                        let k = self.place(other);
                        let l = before.place(other);
                        assert(self.entries[k].0@ == other);
                        assert(before.entries[l].0@ == other);
                        assert(self.entries[l].0@ == other);
                        assert(k == l);
                        assert(self.entries[i as int].0@ == name);
                    }
                    assert(self@ =~= before@.insert(name, state));
                }
            },
            None => {
                let ghost name = id@;
                self.entries.push((id, state));
                proof {
                    let n = before.entries.len() as int;
                    assert(self.entries[n].0@ == name);
                    assert forall|a: int, b: int|
                        0 <= a < self.entries.len() && 0 <= b < self.entries.len() && (
                        #[trigger] self.entries[a]).0@ == (#[trigger] self.entries[b]).0@ implies a
                        == b by {
                        if a < n {
                            assert(self.entries[a].0@ == before.entries[a].0@);
                        }
                        if b < n {
                            assert(self.entries[b].0@ == before.entries[b].0@);
                        }
                    }
                    assert forall|other: Seq<char>|
                        self.holds(other) == (before.holds(other) || other == name) by {
                        if self.holds(other) {
                            let k = self.place(other);
                            if k < n {
                                assert(before.entries[k].0@ == other);
                            }
                        }
                        if before.holds(other) {
                            let k = before.place(other);
                            assert(self.entries[k].0@ == other);
                        }
                    }
                    assert forall|other: Seq<char>| self.holds(other) implies self.entries[self.place(
                        other,
                    )].1 == (if other == name {
                        state
                    } else {
                        before.entries[before.place(other)].1
                    }) by {
                        let k = self.place(other);
                        assert(self.entries[k].0@ == other);
                        if other != name {
                            let l = before.place(other);
                            assert(before.entries[l].0@ == other);
                            assert(self.entries[l].0@ == other);
                            assert(k == l);
                        } else {
                            assert(k == n);
                        }
                    }
                    assert(self@ =~= before@.insert(name, state));
                }
            },
        }
    }
}

/// A request that this server sends to another.
#[derive(Debug)]
pub enum Request {
    PeerPrepare(PeerPrepareRequest),
    PeerCommit(PeerCommitRequest),
    PeerTransaction(PeerTransactionRequest),
    ClientTransaction(ClientTransactionRequest),
}

pub ghost enum RequestView {
    PeerPrepare(PeerPrepareRequestView),
    PeerCommit(PeerCommitRequestView),
    PeerTransaction(PeerTransactionRequestView),
    ClientTransaction(ClientTransactionRequestView),
}

impl View for Request {
    type V = RequestView;

    open spec fn view(&self) -> RequestView {
        match self {
            Request::PeerPrepare(r) => RequestView::PeerPrepare(r@),
            Request::PeerCommit(r) => RequestView::PeerCommit(r@),
            Request::PeerTransaction(r) => RequestView::PeerTransaction(r@),
            Request::ClientTransaction(r) => RequestView::ClientTransaction(r@),
        }
    }
}

impl Clone for Request {
    fn clone(&self) -> (res: Self)
        ensures
            res@ == self@,
    {
        match self {
            Request::PeerPrepare(r) => Request::PeerPrepare(r.clone()),
            Request::PeerCommit(r) => Request::PeerCommit(r.clone()),
            Request::PeerTransaction(r) => Request::PeerTransaction(r.clone()),
            Request::ClientTransaction(r) => Request::ClientTransaction(r.clone()),
        }
    }
}

/// A request together with the server that is to get it.
#[derive(Debug)]
pub struct Outbound {
    pub destination: String,
    pub request: Request,
}

pub ghost struct OutboundView {
    pub destination: Seq<char>,
    pub request: RequestView,
}

impl View for Outbound {
    type V = OutboundView;

    open spec fn view(&self) -> OutboundView {
        OutboundView { destination: self.destination@, request: self.request@ }
    }
}

/// The views of a sequence of outbound requests.
pub open spec fn outbound_views(out: Seq<Outbound>) -> Seq<OutboundView> {
    out.map_values(|o: Outbound| o@)
}

/// One and the same request to each of the servers, in their order.
pub open spec fn fan_out(servers: Seq<PeerServerView>, request: RequestView) -> Seq<OutboundView> {
    Seq::new(
        servers.len(),
        |i: int| OutboundView { destination: servers[i].connection_string, request },
    )
}

/// The servers of an optional cluster.
pub open spec fn servers_of(cluster: Option<ServerCluster>) -> Seq<PeerServerView> {
    match cluster {
        Some(c) => c@,
        None => Seq::empty(),
    }
}

/// Addresses one and the same request to each server of a cluster.
fn broadcast(cluster: Option<&ServerCluster>, request: &Request) -> (out: Vec<Outbound>)
    ensures
        outbound_views(out@) == fan_out(
            match cluster {
                Some(c) => c@,
                None => Seq::empty(),
            },
            request@,
        ),
{
    let mut out: Vec<Outbound> = Vec::new();
    match cluster {
        Some(c) => {
            let mut i: usize = 0;
            while i < c.len()
                invariant
                    i <= c@.len(),
                    outbound_views(out@) == fan_out(c@, request@).take(i as int),
                decreases c@.len() - i,
            {
                let ghost sent = out@;
                let next = Outbound {
                    destination: c.server(i).connection_string.clone(),
                    request: request.clone(),
                };
                out.push(next);
                assert(outbound_views(out@) =~= outbound_views(sent).push(next@));
                i += 1;
                assert(outbound_views(out@) =~= fan_out(c@, request@).take(i as int));
            }
            assert(fan_out(c@, request@).take(c@.len() as int) == fan_out(c@, request@));
        },
        None => {
            assert(outbound_views(out@) =~= fan_out(Seq::empty(), request@));
        },
    }
    out
}

/// The announcement that the server named `id` prepares `epoch`.
pub open spec fn prepare_request(id: Seq<char>, epoch: u64) -> RequestView {
    RequestView::PeerPrepare(PeerPrepareRequestView { epoch: Some(epoch), peer_identity: Some(id) })
}

/// The signature of the server named `id` over the root of `epoch`.
pub open spec fn commit_request(
    id: Seq<char>,
    epoch: u64,
    head: Seq<u8>,
    signature: Seq<u8>,
) -> RequestView {
    RequestView::PeerCommit(
        PeerCommitRequestView { peer_identity: Some(id), epoch: Some(epoch), head, signature },
    )
}

/// A client's transaction as the server named `id` passes it on at `epoch`.
pub open spec fn echo_request(
    id: Seq<char>,
    epoch: u64,
    transaction: TransactionRequestView,
    signature: Seq<u8>,
) -> RequestView {
    RequestView::PeerTransaction(
        PeerTransactionRequestView {
            transaction: Some(transaction),
            server_id: id,
            epoch: Some(epoch),
            signature,
            auxiliary: None,
        },
    )
}

/// The update that writes `head` under `key` into a superior's shard.
pub open spec fn root_update(key: Seq<u8>, head: Seq<u8>) -> RequestView {
    RequestView::ClientTransaction(
        ClientTransactionRequestView {
            transaction: Some(
                TransactionRequestView {
                    key,
                    value: Some(head),
                    transaction_type: TransactionType::Update,
                },
            ),
            auxiliary: None,
        },
    )
}

/// To each superior the update that writes `head` under this server's address
/// relative to that superior.
pub open spec fn superior_updates(server: MerkleVerseServerView, head: Seq<u8>) -> Seq<
    OutboundView,
> {
    Seq::new(
        server.superiors().len(),
        |i: int|
            OutboundView {
                destination: server.superiors()[i].connection_string,
                request: root_update(
                    relative_to(server.prefix, server.superiors()[i].prefix).unwrap().index,
                    head,
                ),
            },
    )
}

/// What a client waits for after its transaction entered the pool: the commit
/// of `target_epoch`, through at most a few wake-ups.
#[derive(Debug, Clone, Copy, PartialEq, Eq, Structural)]
pub struct CommitWait {
    pub target_epoch: u64,
    pub wake_ups: u8,
}

impl CommitWait {
    /// What a wake-up means in which the commit channel showed `observed`
    /// (`None`: it closed): `true` where the awaited commit was seen, `false`
    /// where another epoch was seen and the client waits on, and an error where
    /// the channel closed or this was the last wake-up allowed.
    pub open spec fn step(self, observed: Option<u64>) -> Result<bool, ServerError> {
        match observed {
            None => Err(ServerError::CommitNotificationLost),
            Some(epoch) => if epoch == self.target_epoch {
                Ok(true)
            } else if self.wake_ups + 1 >= MAX_WAKE_UPS {
                Err(ServerError::CommitNotificationLost)
            } else {
                Ok(false)
            },
        }
    }

    /// Takes a wake-up: the commit channel showed `observed` (`None`: it closed).
    /// A wake-up after which the client waits on is counted.
    pub fn observe(&mut self, observed: Option<u64>) -> (res: Result<bool, ServerError>)
        requires
            old(self).wake_ups < MAX_WAKE_UPS,
        ensures
            res == old(self).step(observed),
            final(self).target_epoch == old(self).target_epoch,
            final(self).wake_ups == if res == Ok::<bool, ServerError>(false) {
                (old(self).wake_ups + 1) as u8
            } else {
                old(self).wake_ups
            },
            final(self).wake_ups < MAX_WAKE_UPS,
    {
        match observed {
            None => Err(ServerError::CommitNotificationLost),
            Some(epoch) => if epoch == self.target_epoch {
                Ok(true)
            } else if self.wake_ups + 1 >= MAX_WAKE_UPS {
                Err(ServerError::CommitNotificationLost)
            } else {
                self.wake_ups = self.wake_ups + 1;
                Ok(false)
            },
        }
    }
}

/// What a server answers to a client's transaction, and what is to be done.
#[derive(Debug)]
pub struct ClientReceipt {
    /// `None` where the transaction entered the pool, `Some` where it was there.
    pub answer: Option<()>,
    /// The requests that pass the transaction on to the parallel peers.
    pub outbound: Vec<Outbound>,
    /// The commit to wait for before answering, where the client asked for that.
    pub wait: Option<CommitWait>,
}

/// The mutable state of a server.
pub struct MerkleVerseServerState {
    current_root: Vec<u8>,
    current_epoch: u64,
    multi_sigs: HashMap<u64, MultiSig>,
    run_state: RunState,
    peer_states: PeerStates,
    transaction_pool: TransactionPool,
    last_commit_time: Option<u64>,
    last_prepare_time: Option<u64>,
    prepare_notify: u64,
    commit_notify: u64,
}

pub ghost struct StateView {
    pub current_root: Seq<u8>,
    pub current_epoch: u64,
    pub multi_sigs: Map<u64, MultiSigView>,
    pub run_state: RunState,
    pub peer_states: Map<Seq<char>, RunState>,
    pub pool: Map<u64, Seq<TransactionView>>,
    pub last_commit_time: Option<u64>,
    pub last_prepare_time: Option<u64>,
    pub prepare_notify: u64,
    pub commit_notify: u64,
}

impl StateView {
    /// What holds of every state that a server reaches.
    pub open spec fn wf(self) -> bool {
        &&& self.run_state matches RunState::Prepare(e) ==> e == self.current_epoch
        &&& pool_is_set(self.pool)
        &&& forall|e: u64| #[trigger]
            self.multi_sigs.contains_key(e) ==> self.multi_sigs[e].wf() && self.multi_sigs[e].epoch
                == e && e <= self.current_epoch
        &&& self.multi_sigs.contains_key(self.current_epoch)
            ==> self.multi_sigs[self.current_epoch].root == self.current_root
    }

    /// The state of a server that has just started.
    pub open spec fn initial() -> StateView {
        StateView {
            current_root: Seq::empty(),
            current_epoch: 0,
            multi_sigs: Map::empty(),
            run_state: RunState::Normal,
            peer_states: Map::empty(),
            pool: Map::empty(),
            last_commit_time: None,
            last_prepare_time: None,
            prepare_notify: 0,
            commit_notify: 0,
        }
    }

    /// The state with the peer named `id` known, in `Normal`.
    pub open spec fn with_peer(self, id: Seq<char>) -> StateView {
        StateView { peer_states: self.peer_states.insert(id, RunState::Normal), ..self }
    }

    /// The state after the server entered the prepare of its current epoch at `now`.
    pub open spec fn after_prepare(self, now: u64) -> StateView {
        StateView {
            run_state: RunState::Prepare(self.current_epoch),
            last_prepare_time: Some(now),
            prepare_notify: self.current_epoch,
            ..self
        }
    }

    /// The state after the peer named `from` announced that it prepares `epoch`.
    pub open spec fn after_peer_prepare(self, from: Seq<char>, epoch: u64) -> StateView {
        StateView { peer_states: self.peer_states.insert(from, RunState::Prepare(epoch)), ..self }
    }

    /// The state after the server named `id` offered `signature` over the current
    /// root at the current epoch.
    pub open spec fn after_signature(self, id: Seq<char>, signature: Seq<u8>) -> StateView {
        StateView {
            multi_sigs: merged(
                self.multi_sigs,
                self.current_epoch,
                self.current_root,
                id,
                signature,
            ),
            ..self
        }
    }

    /// The state after a commit at `now` in which the inner provider returned
    /// `head`.
    pub open spec fn after_commit(self, head: Seq<u8>, now: u64) -> StateView {
        StateView {
            run_state: RunState::Normal,
            current_epoch: (self.current_epoch + 1) as u64,
            current_root: head,
            last_commit_time: Some(now),
            commit_notify: (self.current_epoch + 1) as u64,
            ..self
        }
    }

    /// The state after `t` was offered to the pool at `epoch`.
    pub open spec fn after_offer(self, epoch: u64, t: TransactionView) -> StateView {
        StateView { pool: pool_with(self.pool, epoch, t), ..self }
    }

    /// The epoch at which a client's transaction enters the pool: the next one
    /// while the current one is being prepared.
    pub open spec fn target_epoch(self) -> u64 {
        match self.run_state {
            RunState::Prepare(_) => (self.current_epoch + 1) as u64,
            RunState::Normal => self.current_epoch,
        }
    }

    /// How many transactions are pending at the current epoch.
    pub open spec fn pending(self) -> nat {
        bucket_of(self.pool, self.current_epoch).len()
    }

    /// Whether the prepare watcher triggers a prepare at `now`.
    pub open spec fn prepare_due(self, now: u64) -> bool {
        let time_trigger = match self.last_commit_time {
            Some(t) => now - t > PREPARE_AFTER,
            None => true,
        };
        &&& self.run_state is Normal
        &&& time_trigger || self.pending() >= MAX_TRANSACTIONS
        &&& self.pending() >= MIN_TRANSACTIONS
    }

    /// Whether the commit watcher triggers a commit at `now`.
    pub open spec fn commit_due(self, now: u64) -> bool {
        &&& self.run_state is Prepare
        &&& match self.last_prepare_time {
            Some(t) => now - t > COMMIT_AFTER,
            None => true,
        }
    }

    /// The requests that carry the pending transactions of the current epoch to
    /// the inner provider.
    pub open spec fn commit_requests(self) -> Seq<TransactionRequestView> {
        bucket_of(self.pool, self.current_epoch).map_values(
            |t: TransactionView| t.operation.request(),
        )
    }
}

impl View for MerkleVerseServerState {
    type V = StateView;

    closed spec fn view(&self) -> StateView {
        StateView {
            current_root: self.current_root@,
            current_epoch: self.current_epoch,
            multi_sigs: Map::new(
                |e: u64| self.multi_sigs@.contains_key(e),
                |e: u64| self.multi_sigs@[e]@,
            ),
            run_state: self.run_state,
            peer_states: self.peer_states@,
            pool: self.transaction_pool@,
            last_commit_time: self.last_commit_time,
            last_prepare_time: self.last_prepare_time,
            prepare_notify: self.prepare_notify,
            commit_notify: self.commit_notify,
        }
    }
}

impl MerkleVerseServerState {
    /// The state is one that a server reaches: see `StateView::wf`.
    pub closed spec fn wf(&self) -> bool {
        self.peer_states.wf() && self@.wf()
    }

    /// Every well-formed state has a well-formed view.
    pub proof fn lemma_wf_view(&self)
        requires
            self.wf(),
        ensures
            self@.wf(),
    {
    }

    /// The state of a server that has just started.
    pub fn new() -> (res: Self)
        ensures
            res.wf(),
            res@ == StateView::initial(),
    {
        let res = Self {
            prepare_notify: 0,
            commit_notify: 0,
            current_root: Vec::new(),
            current_epoch: 0,
            multi_sigs: HashMap::new(),
            run_state: RunState::Normal,
            peer_states: PeerStates::new(),
            transaction_pool: TransactionPool::new(),
            last_commit_time: None,
            last_prepare_time: None,
        };
        assert(res@.multi_sigs =~= Map::<u64, MultiSigView>::empty());
        res
    }

    /// Makes a peer known, in `Normal`.
    pub fn add_peer(&mut self, server_id: ServerId) -> (res: Result<(), ServerError>)
        requires
            old(self).wf(),
        ensures
            res is Ok,
            final(self).wf(),
            final(self)@ == old(self)@.with_peer(server_id@),
    {
        self.peer_states.set(server_id, RunState::Normal);
        Ok(())
    }

    /// The most recent root of the inner provider; empty before the first commit.
    pub fn current_root(&self) -> (res: &Vec<u8>)
        ensures
            res@ == self@.current_root,
    {
        &self.current_root
    }

    /// The current epoch.
    pub fn current_epoch(&self) -> (res: u64)
        ensures
            res == self@.current_epoch,
    {
        self.current_epoch
    }

    /// Where the server stands in the commit of the current epoch.
    pub fn run_state(&self) -> (res: RunState)
        ensures
            res == self@.run_state,
    {
        self.run_state
    }

    /// What the peer named `id` reported last, if it is known.
    pub fn peer_state(&self, id: &ServerId) -> (res: Option<RunState>)
        requires
            self.wf(),
        ensures
            res == if self@.peer_states.contains_key(id@) {
                Some(self@.peer_states[id@])
            } else {
                None
            },
    {
        self.peer_states.get(id)
    }

    /// The signatures gathered over the root of `epoch`, if there are any.
    pub fn multi_sig(&self, epoch: u64) -> (res: Option<&MultiSig>)
        requires
            self.wf(),
        ensures
            match res {
                Some(m) => self@.multi_sigs.contains_key(epoch) && m@ == self@.multi_sigs[epoch]
                    && m@.wf(),
                None => !self@.multi_sigs.contains_key(epoch),
            },
    {
        let res = self.multi_sigs.get(&epoch);
        proof {
            if self@.multi_sigs.contains_key(epoch) {
                assert(self@.multi_sigs[epoch].wf());
            }
        }
        res
    }

    /// The pool of pending transactions.
    pub fn transaction_pool(&self) -> (res: &TransactionPool)
        requires
            self.wf(),
        ensures
            res@ == self@.pool,
            res.wf(),
    {
        &self.transaction_pool
    }

    /// When the server last committed, if it ever did.
    pub fn last_commit_time(&self) -> (res: Option<u64>)
        ensures
            res == self@.last_commit_time,
    {
        self.last_commit_time
    }

    /// When the server last entered a prepare, if it ever did.
    pub fn last_prepare_time(&self) -> (res: Option<u64>)
        ensures
            res == self@.last_prepare_time,
    {
        self.last_prepare_time
    }

    /// The epoch that the prepare channel shows.
    pub fn prepare_notify(&self) -> (res: u64)
        ensures
            res == self@.prepare_notify,
    {
        self.prepare_notify
    }

    /// The epoch that the commit channel shows.
    pub fn commit_notify(&self) -> (res: u64)
        ensures
            res == self@.commit_notify,
    {
        self.commit_notify
    }

    /// Drops the pending transactions of every epoch before `epoch`.
    pub fn purge_before(&mut self, epoch: u64)
        requires
            old(self).wf(),
        ensures
            final(self).wf(),
            final(self)@ == (StateView {
                pool: crate::server::transactions::pool_from(old(self)@.pool, epoch),
                ..old(self)@
            }),
    {
        let _ = self.transaction_pool.purge_before(epoch);
    }

    /// Enters a signature over the current root at the current epoch.
    fn merge_signature(&mut self, id: ServerId, signature: BlsSignature)
        requires
            old(self).wf(),
        ensures
            final(self).wf(),
            final(self)@ == old(self)@.after_signature(id@, signature@),
    {
        let epoch = self.current_epoch;
        let ghost before = self@;
        let record = match self.multi_sigs.remove(&epoch) {
            Some(mut record) => {
                assert(before.multi_sigs.contains_key(epoch));
                assert(record@ == before.multi_sigs[epoch]);
                record.merge(id, signature);
                record
            },
            None => MultiSig::new(epoch, self.current_root.clone(), id, signature),
        };
        self.multi_sigs.insert(epoch, record);
        proof {
            assert(self@.multi_sigs =~= merged(
                before.multi_sigs,
                before.current_epoch,
                before.current_root,
                id@,
                signature@,
            ));
            assert forall|e: u64| #[trigger] self@.multi_sigs.contains_key(e) implies self@.multi_sigs[e].wf()
                && self@.multi_sigs[e].epoch == e && e <= self@.current_epoch by {
                if e != epoch {
                    assert(before.multi_sigs.contains_key(e));
                }
            }
        }
    }
}

impl MerkleVerseServer {
    /// Enters the prepare of the current epoch and tells every parallel peer.
    /// While the server prepares, a further attempt is refused.
    pub fn broadcast_prepare(&self, state: &mut MerkleVerseServerState, now: u64) -> (res: Result<
        Vec<Outbound>,
        ServerError,
    >)
        requires
            old(state).wf(),
        ensures
            final(state).wf(),
            match old(state)@.run_state {
                RunState::Prepare(_) => res matches Err(e) && e == ServerError::AlreadyPreparing
                    && final(state)@ == old(state)@,
                RunState::Normal => res matches Ok(out) && outbound_views(out@) == fan_out(
                    self@.parallels(),
                    prepare_request(self@.id, old(state)@.current_epoch),
                ) && final(state)@ == old(state)@.after_prepare(now),
            },
    {
        match state.run_state {
            RunState::Prepare(_) => {
                return Err(ServerError::AlreadyPreparing);
            },
            RunState::Normal => {},
        }
        let cur_epoch = state.current_epoch;
        state.run_state = RunState::Prepare(cur_epoch);
        state.last_prepare_time = Some(now);
        state.prepare_notify = cur_epoch;
        let request = Request::PeerPrepare(
            PeerPrepareRequest {
                epoch: Some(Epoch { epoch: cur_epoch }),
                peer_identity: Some(self.server_identity()),
            },
        );
        Ok(broadcast(self.parallel(), &request))
    }

    /// Records that a peer prepares `epoch`; a server in `Normal` then enters the
    /// prepare of its own current epoch and tells its parallel peers.
    pub fn receive_prepare(
        &self,
        state: &mut MerkleVerseServerState,
        epoch: u64,
        server_id: ServerId,
        now: u64,
    ) -> (res: Result<Vec<Outbound>, ServerError>)
        requires
            old(state).wf(),
        ensures
            final(state).wf(),
            match old(state)@.run_state {
                RunState::Prepare(_) => res matches Ok(out) && out@.len() == 0 && final(state)@
                    == old(state)@.after_peer_prepare(server_id@, epoch),
                RunState::Normal => res matches Ok(out) && outbound_views(out@) == fan_out(
                    self@.parallels(),
                    prepare_request(self@.id, old(state)@.current_epoch),
                ) && final(state)@ == old(state)@.after_peer_prepare(
                    server_id@,
                    epoch,
                ).after_prepare(now),
            },
    {
        state.peer_states.set(server_id, RunState::Prepare(epoch));
        match state.run_state {
            RunState::Prepare(_) => Ok(Vec::new()),
            RunState::Normal => self.broadcast_prepare(state, now),
        }
    }

    /// Signs the current root, enters the signature at the current epoch, and
    /// sends it to every parallel peer.
    pub fn sign_and_broadcast(&self, state: &mut MerkleVerseServerState) -> (res: Result<
        Vec<Outbound>,
        ServerError,
    >)
        requires
            old(state).wf(),
        ensures
            final(state).wf(),
            res matches Ok(out) && outbound_views(out@) == fan_out(
                self@.parallels(),
                commit_request(
                    self@.id,
                    old(state)@.current_epoch,
                    old(state)@.current_root,
                    bls_signature_of(self@.private_key, old(state)@.current_root),
                ),
            ),
            final(state)@ == old(state)@.after_signature(
                self@.id,
                bls_signature_of(self@.private_key, old(state)@.current_root),
            ),
    {
        let sig = self.private_key.sign_root(&state.current_root);
        let request = Request::PeerCommit(
            PeerCommitRequest {
                peer_identity: Some(self.server_identity()),
                epoch: Some(Epoch { epoch: state.current_epoch }),
                signature: sig.as_bytes(),
                head: state.current_root.clone(),
            },
        );
        state.merge_signature(self.id.clone(), sig);
        Ok(broadcast(self.parallel(), &request))
    }

    /// Takes the signature that the peer named `from` sent over the root `head`
    /// of `epoch`. It is refused where the epoch or the root is not the current
    /// one, or where the bytes are no signature.
    pub fn receive_signatures(
        &self,
        state: &mut MerkleVerseServerState,
        from: &ServerId,
        epoch: u64,
        head: &Vec<u8>,
        sig_bytes: &Vec<u8>,
    ) -> (res: Result<(), ServerError>)
        requires
            old(state).wf(),
        ensures
            final(state).wf(),
            res == receive_answer(old(state)@, epoch, head@, sig_bytes@),
            final(state)@ == if res is Ok {
                old(state)@.after_signature(from@, sig_bytes@)
            } else {
                old(state)@
            },
    {
        if epoch != state.current_epoch {
            return Err(ServerError::StaleEpoch);
        }
        let same_root = *head == state.current_root;
        assert(same_root == (head@ =~= state.current_root@));
        if !same_root {
            return Err(ServerError::RootMismatch);
        }
        let sig = match BlsSignature::from_bytes(sig_bytes) {
            Ok(sig) => sig,
            Err(e) => {
                return Err(e);
            },
        };
        state.merge_signature(from.clone(), sig);
        Ok(())
    }

    /// Whether the prepare watcher triggers a prepare at `now`.
    pub fn should_prepare(&self, state: &MerkleVerseServerState, now: u64) -> (res: bool)
        ensures
            res == state@.prepare_due(now),
    {
        match state.run_state {
            RunState::Prepare(_) => {
                return false;
            },
            RunState::Normal => {},
        }
        let t_trigger = match state.last_commit_time {
            Some(t) => now > t && now - t > PREPARE_AFTER,
            None => true,
        };
        let transaction_cnt = state.transaction_pool.count(state.current_epoch);
        (t_trigger || transaction_cnt >= MAX_TRANSACTIONS) && transaction_cnt >= MIN_TRANSACTIONS
    }

    /// One turn of the prepare watcher: enters the prepare where it is due.
    pub fn watch_trigger_prepare(&self, state: &mut MerkleVerseServerState, now: u64) -> (res:
        Result<Option<Vec<Outbound>>, ServerError>)
        requires
            old(state).wf(),
        ensures
            final(state).wf(),
            if old(state)@.prepare_due(now) {
                res matches Ok(Some(out)) && outbound_views(out@) == fan_out(
                    self@.parallels(),
                    prepare_request(self@.id, old(state)@.current_epoch),
                ) && final(state)@ == old(state)@.after_prepare(now)
            } else {
                res matches Ok(None) && final(state)@ == old(state)@
            },
    {
        if self.should_prepare(state, now) {
            match self.broadcast_prepare(state, now) {
                Ok(out) => Ok(Some(out)),
                Err(e) => Err(e),
            }
        } else {
            Ok(None)
        }
    }

    /// One turn of the commit watcher: whether a commit is due at `now`.
    pub fn watch_commit_loop(&self, state: &MerkleVerseServerState, now: u64) -> (res: bool)
        ensures
            res == state@.commit_due(now),
    {
        match state.run_state {
            RunState::Normal => false,
            RunState::Prepare(_) => match state.last_prepare_time {
                Some(t) => now > t && now - t > COMMIT_AFTER,
                None => true,
            },
        }
    }

    /// The requests that carry the pending transactions of the current epoch to
    /// the inner provider, in the order in which they entered the pool.
    pub fn commit_requests(&self, state: &MerkleVerseServerState) -> (res: Vec<TransactionRequest>)
        requires
            state.wf(),
        ensures
            res@.map_values(|r: TransactionRequest| r@) == state@.commit_requests(),
    {
        let mut out: Vec<TransactionRequest> = Vec::new();
        match state.transaction_pool.get_epoch(state.current_epoch) {
            None => {
                assert(res_views(out@) =~= state@.commit_requests());
            },
            Some(transet) => {
                let mut i: usize = 0;
                while i < transet.len()
                    invariant
                        i <= transet.len(),
                        views(transet@) == bucket_of(state@.pool, state@.current_epoch),
                        res_views(out@) == state@.commit_requests().take(i as int),
                    decreases transet.len() - i,
                {
                    let ghost sent = out@;
                    let next = transet[i].to_request();
                    out.push(next);
                    assert(res_views(out@) =~= res_views(sent).push(next@));
                    assert(views(transet@)[i as int] == transet[i as int]@);
                    i += 1;
                    assert(res_views(out@) =~= state@.commit_requests().take(i as int));
                }
                assert(state@.commit_requests().take(transet.len() as int)
                    == state@.commit_requests());
            },
        }
        out
    }

    /// Ends the commit of the current epoch. `head` is the root that the inner
    /// provider returned after it took the pending transactions and advanced its
    /// epoch, or `None` where it failed: then nothing changes. Else the server
    /// returns to `Normal` in the next epoch with that root, shows the new epoch
    /// on the commit channel, and writes the root into each superior's shard.
    pub fn trigger_commit(
        &self,
        state: &mut MerkleVerseServerState,
        head: Option<Vec<u8>>,
        now: u64,
    ) -> (res: Result<Vec<Outbound>, ServerError>)
        requires
            old(state).wf(),
            self.wf(),
            old(state)@.current_epoch < u64::MAX,
        ensures
            final(state).wf(),
            match head {
                None => res matches Err(e) && e == ServerError::CommitFailure && final(state)@
                    == old(state)@,
                Some(h) => res matches Ok(out) && outbound_views(out@) == superior_updates(
                    self@,
                    h@,
                ) && final(state)@ == old(state)@.after_commit(h@, now),
            },
    {
        let head = match head {
            None => {
                return Err(ServerError::CommitFailure);
            },
            Some(h) => h,
        };
        let out = self.trigger_epoch(&head);
        state.run_state = RunState::Normal;
        state.current_epoch = state.current_epoch + 1;
        state.commit_notify = state.current_epoch;
        state.last_commit_time = Some(now);
        state.current_root = head;
        proof {
            assert(state@.multi_sigs =~= old(state)@.multi_sigs);
            assert forall|e: u64| #[trigger] state@.multi_sigs.contains_key(e) implies e
                <= old(state)@.current_epoch by {
                assert(old(state)@.multi_sigs.contains_key(e));
            }
        }
        Ok(out)
    }

    /// The updates that write the new root `head` into the shard of each superior,
    /// under this server's address relative to it.
    pub fn trigger_epoch(&self, head: &Vec<u8>) -> (out: Vec<Outbound>)
        requires
            self.wf(),
        ensures
            outbound_views(out@) == superior_updates(self@, head@),
    {
        let mut out: Vec<Outbound> = Vec::new();
        match self.superior() {
            None => {
                assert(outbound_views(out@) =~= superior_updates(self@, head@));
            },
            Some(servers) => {
                let mut i: usize = 0;
                while i < servers.len()
                    invariant
                        i <= servers@.len(),
                        self.wf(),
                        servers@ == self@.superiors(),
                        outbound_views(out@) == superior_updates(self@, head@).take(i as int),
                    decreases servers@.len() - i,
                {
                    let srv = servers.server(i);
                    assert(self@.superiors()[i as int].prefix.is_prefix_of(self@.prefix));
                    let key = match self.relative_index(Some(srv)) {
                        Ok(index) => index.index,
                        Err(_) => Vec::new(),
                    };
                    let ghost sent = out@;
                    let next = Outbound {
                        destination: srv.connection_string.clone(),
                        request: Request::ClientTransaction(
                            ClientTransactionRequest {
                                transaction: Some(
                                    TransactionRequest {
                                        value: Some(head.clone()),
                                        key,
                                        transaction_type: TransactionType::Update,
                                    },
                                ),
                                auxiliary: None,
                            },
                        ),
                    };
                    out.push(next);
                    assert(outbound_views(out@) =~= outbound_views(sent).push(next@));
                    i += 1;
                    assert(outbound_views(out@) =~= superior_updates(self@, head@).take(i as int));
                }
                assert(superior_updates(self@, head@).take(servers@.len() as int)
                    == superior_updates(self@, head@));
            },
        }
        out
    }

    /// Takes a transaction that a parallel peer passed on: checks its signature
    /// and offers it to the pool at the epoch that the request names.
    pub fn receive_peer_transaction(
        &self,
        state: &mut MerkleVerseServerState,
        req: PeerTransactionRequest,
    ) -> (res: Result<Option<()>, ServerError>)
        requires
            old(state).wf(),
            self.wf(),
        ensures
            final(state).wf(),
            res == peer_answer(self@, old(state)@, req@),
            final(state)@ == match (res, req@.epoch, TransactionView::of_peer(req@)) {
                (Ok(_), Some(epoch), Some(t)) => old(state)@.after_offer(epoch, t),
                _ => old(state)@,
            },
    {
        match self.verify_peer_transaction(&req) {
            Ok(_) => {},
            Err(e) => {
                return Err(e);
            },
        }
        state.transaction_pool.insert_peer(req)
    }

    /// Takes a client's transaction: offers it to the pool at the target epoch
    /// and, where it entered and there are parallel peers, passes it on to each
    /// of them, signed. A client that asked to wait is told which commit to
    /// wait for.
    pub fn receive_client_transaction(
        &self,
        state: &mut MerkleVerseServerState,
        req: ClientTransactionRequest,
        wait: bool,
    ) -> (res: Result<ClientReceipt, ServerError>)
        requires
            old(state).wf(),
            old(state)@.run_state is Prepare ==> old(state)@.current_epoch < u64::MAX,
        ensures
            final(state).wf(),
            match TransactionView::of_client(req@) {
                None => res matches Err(e) && e == ServerError::MissingField && final(state)@
                    == old(state)@,
                Some(t) => {
                    let epoch = old(state)@.target_epoch();
                    &&& final(state)@ == old(state)@.after_offer(epoch, t)
                    &&& res matches Ok(receipt)
                    &&& receipt.answer == offer_answer(old(state)@.pool, epoch, t)
                    &&& outbound_views(receipt.outbound@) == client_fan_out(
                        self@,
                        old(state)@,
                        req@,
                    )
                    &&& receipt.wait == if wait && receipt.answer is None {
                        Some(CommitWait { target_epoch: epoch, wake_ups: 0 })
                    } else {
                        None
                    }
                },
            },
    {
        let epoch = match state.run_state {
            RunState::Prepare(_) => state.current_epoch + 1,
            RunState::Normal => state.current_epoch,
        };
        let answer = match state.transaction_pool.insert_client(epoch, &req) {
            Ok(a) => a,
            Err(e) => {
                return Err(e);
            },
        };
        if answer.is_some() {
            return Ok(ClientReceipt { answer, outbound: Vec::new(), wait: None });
        }
        let outbound = match (self.parallel(), req.transaction) {
            (Some(parallels), Some(trans)) => {
                let signature = match self.sign_transaction(&trans) {
                    Ok(s) => s,
                    Err(e) => {
                        return Err(e);
                    },
                };
                let request = Request::PeerTransaction(
                    PeerTransactionRequest {
                        transaction: Some(trans),
                        server_id: self.id.0.clone(),
                        epoch: Some(Epoch { epoch }),
                        signature,
                        auxiliary: None,
                    },
                );
                broadcast(Some(parallels), &request)
            },
            _ => Vec::new(),
        };
        let wait = if wait {
            Some(CommitWait { target_epoch: epoch, wake_ups: 0 })
        } else {
            None
        };
        Ok(ClientReceipt { answer, outbound, wait })
    }
}

/// The views of a sequence of requests.
pub open spec fn res_views(requests: Seq<TransactionRequest>) -> Seq<TransactionRequestView> {
    requests.map_values(|r: TransactionRequest| r@)
}

/// What a server answers to a peer's signature over `head` at `epoch`.
pub open spec fn receive_answer(
    state: StateView,
    epoch: u64,
    head: Seq<u8>,
    signature: Seq<u8>,
) -> Result<(), ServerError> {
    if epoch != state.current_epoch {
        Err(ServerError::StaleEpoch)
    } else if head != state.current_root {
        Err(ServerError::RootMismatch)
    } else if !bls_signature_decodes(signature) {
        Err(ServerError::SignatureInvalid)
    } else {
        Ok(())
    }
}

/// What a server answers to a transaction that a peer passed on.
pub open spec fn peer_answer(
    server: MerkleVerseServerView,
    state: StateView,
    request: PeerTransactionRequestView,
) -> Result<Option<()>, ServerError> {
    match peer_check(server, request) {
        Err(e) => Err(e),
        Ok(_) => match (request.epoch, TransactionView::of_peer(request)) {
            (Some(epoch), Some(t)) => Ok(offer_answer(state.pool, epoch, t)),
            _ => Err(ServerError::MissingField),
        },
    }
}

/// The requests that pass a client's transaction on: one to each parallel peer
/// where the transaction is new to the pool, none where it is a duplicate.
pub open spec fn client_fan_out(
    server: MerkleVerseServerView,
    state: StateView,
    request: ClientTransactionRequestView,
) -> Seq<OutboundView> {
    let epoch = state.target_epoch();
    match (TransactionView::of_client(request), request.transaction) {
        (Some(t), Some(r)) => if offer_answer(state.pool, epoch, t) is None {
            fan_out(
                server.parallels(),
                echo_request(
                    server.id,
                    epoch,
                    r,
                    ed25519_signature_of(server.private_key, request_message(r)),
                ),
            )
        } else {
            Seq::empty()
        },
        _ => Seq::empty(),
    }
}

/// Whether a server may pass from `pre` to `post` in one step: by learning of a
/// peer, entering a prepare, hearing of a peer's prepare, entering a signature,
/// committing, taking a transaction, or dropping old transactions.
pub open spec fn moves(pre: StateView, post: StateView) -> bool {
    ||| exists|id: Seq<char>| post == #[trigger] pre.with_peer(id)
    ||| pre.run_state is Normal && exists|now: u64| post == #[trigger] pre.after_prepare(now)
    ||| exists|from: Seq<char>, epoch: u64| post == #[trigger] pre.after_peer_prepare(from, epoch)
    ||| exists|id: Seq<char>, signature: Seq<u8>|
        post == #[trigger] pre.after_signature(id, signature)
    ||| exists|head: Seq<u8>, now: u64|
        pre.current_epoch < u64::MAX && post == #[trigger] pre.after_commit(head, now)
    ||| exists|epoch: u64, t: TransactionView| post == #[trigger] pre.after_offer(epoch, t)
    ||| exists|epoch: u64|
        post == (StateView { pool: #[trigger] pool_from(pre.pool, epoch), ..pre })
}

/// Whether `roots` holds, for every epoch that the server has entered, the root
/// that the inner provider returned on entering it, and every record of
/// signatures is over the root of its epoch.
pub open spec fn roots_recorded(state: StateView, roots: Map<u64, Seq<u8>>) -> bool {
    &&& roots.contains_key(state.current_epoch)
    &&& roots[state.current_epoch] == state.current_root
    &&& forall|e: u64| #[trigger] roots.contains_key(e) ==> e <= state.current_epoch
    &&& forall|e: u64| #[trigger]
        state.multi_sigs.contains_key(e) ==> roots.contains_key(e) && state.multi_sigs[e].root
            == roots[e]
}

/// Whether every signature that the state holds is one that its signer's key
/// in `keys` accepts on the root of its record.
pub open spec fn signatures_verified(state: StateView, keys: Map<Seq<char>, Seq<u8>>) -> bool {
    forall|e: u64, i: int|
        state.multi_sigs.contains_key(e) && 0 <= i < state.multi_sigs[e].signatures.len() ==> {
            let entry = #[trigger] state.multi_sigs[e].signatures[i];
            keys.contains_key(entry.0) && bls_accepts(keys[entry.0], state.multi_sigs[e].root, entry.1)
        }
}

/// Every step leads from a well-formed state to a well-formed state.
pub proof fn lemma_moves_keep_wf(pre: StateView, post: StateView)
    requires
        pre.wf(),
        moves(pre, post),
    ensures
        post.wf(),
{
    if exists|id: Seq<char>, signature: Seq<u8>|
        post == #[trigger] pre.after_signature(id, signature) {
        let (id, signature) = choose|id: Seq<char>, signature: Seq<u8>|
            post == #[trigger] pre.after_signature(id, signature);
        lemma_signature_keeps_wf(pre, id, signature);
    } else if exists|head: Seq<u8>, now: u64|
        pre.current_epoch < u64::MAX && post == #[trigger] pre.after_commit(head, now) {
        assert forall|e: u64| #[trigger] post.multi_sigs.contains_key(e) implies e
            <= pre.current_epoch by {
            assert(pre.multi_sigs.contains_key(e));
        }
    } else if exists|epoch: u64, t: TransactionView| post == #[trigger] pre.after_offer(epoch, t) {
        let (epoch, t) = choose|epoch: u64, t: TransactionView|
            post == #[trigger] pre.after_offer(epoch, t);
        lemma_pool_stays_set(pre.pool, epoch, t);
    } else if exists|epoch: u64|
        post == (StateView { pool: #[trigger] pool_from(pre.pool, epoch), ..pre }) {
        let epoch = choose|epoch: u64|
            post == (StateView { pool: #[trigger] pool_from(pre.pool, epoch), ..pre });
        lemma_pool_stays_set(pre.pool, epoch, arbitrary());
    }
}

/// Entering a signature keeps the records well-formed: the aggregate stays that
/// of exactly the signatures held.
pub proof fn lemma_signature_keeps_wf(state: StateView, id: Seq<char>, signature: Seq<u8>)
    requires
        state.wf(),
    ensures
        state.after_signature(id, signature).wf(),
{
    let post = state.after_signature(id, signature);
    let epoch = state.current_epoch;
    assert forall|e: u64| #[trigger] post.multi_sigs.contains_key(e) implies post.multi_sigs[e].wf()
        && post.multi_sigs[e].epoch == e && e <= post.current_epoch by {
        if e == epoch {
            if state.multi_sigs.contains_key(epoch) {
                let old_record = state.multi_sigs[epoch];
                let record = old_record.with_signature(id, signature);
                if !old_record.signed_by(id) {
                    assert(record.signature_bytes() =~= old_record.signature_bytes().push(
                        signature,
                    ));
                    assert(record.signature_bytes().drop_last() =~= old_record.signature_bytes());
                    assert forall|i: int, j: int|
                        0 <= i < record.signatures.len() && 0 <= j < record.signatures.len() && (
                        #[trigger] record.signatures[i]).0 == (#[trigger] record.signatures[j]).0 implies i
                        == j by {
                        if i < old_record.signatures.len() {
                            assert(old_record.signatures[i].0 == record.signatures[i].0);
                        }
                        if j < old_record.signatures.len() {
                            assert(old_record.signatures[j].0 == record.signatures[j].0);
                        }
                    }
                }
            } else {
                let record = MultiSigView::first(epoch, state.current_root, id, signature);
                assert(record.signature_bytes() =~= seq![signature]);
            }
        } else {
            assert(state.multi_sigs.contains_key(e));
        }
    }
}

/// The current epoch never decreases.
pub proof fn lemma_epoch_never_decreases(pre: StateView, post: StateView)
    requires
        moves(pre, post),
    ensures
        pre.current_epoch <= post.current_epoch,
{
}

/// The root of every record of signatures is the one that the inner provider
/// returned when the record's epoch was entered: a step only ever adds to the
/// history of roots the root of the epoch that it enters, and every record is
/// over the root that the history holds for its epoch.
pub proof fn lemma_roots_stay_recorded(pre: StateView, post: StateView, roots: Map<u64, Seq<u8>>)
    requires
        pre.wf(),
        moves(pre, post),
        roots_recorded(pre, roots),
    ensures
        roots_recorded(post, roots.insert(post.current_epoch, post.current_root)),
        forall|e: u64| #[trigger]
            roots.contains_key(e) ==> roots.insert(post.current_epoch, post.current_root)[e]
                == roots[e],
{
    let after = roots.insert(post.current_epoch, post.current_root);
    if exists|id: Seq<char>, signature: Seq<u8>|
        post == #[trigger] pre.after_signature(id, signature) {
        assert forall|e: u64| #[trigger] post.multi_sigs.contains_key(e) implies after.contains_key(
            e,
        ) && post.multi_sigs[e].root == after[e] by {
            if e != pre.current_epoch {
                assert(pre.multi_sigs.contains_key(e));
            } else if pre.multi_sigs.contains_key(e) {
                assert(pre.multi_sigs[e].root == pre.current_root);
            }
        }
    } else {
        assert forall|e: u64| #[trigger] post.multi_sigs.contains_key(e) implies after.contains_key(
            e,
        ) && post.multi_sigs[e].root == after[e] by {
            assert(pre.multi_sigs.contains_key(e));
        }
    }
    assert forall|e: u64| #[trigger] after.contains_key(e) implies e <= post.current_epoch by {
        if e != post.current_epoch {
            assert(roots.contains_key(e));
        }
    }
}

/// As long as each signature that is entered is one that its signer's key
/// accepts on the current root, every signature held is accepted by its
/// signer's key on the root of its record.
pub proof fn lemma_signatures_stay_verified(
    pre: StateView,
    post: StateView,
    keys: Map<Seq<char>, Seq<u8>>,
)
    requires
        pre.wf(),
        moves(pre, post),
        signatures_verified(pre, keys),
        forall|id: Seq<char>, signature: Seq<u8>|
            post == #[trigger] pre.after_signature(id, signature) ==> keys.contains_key(id)
                && bls_accepts(keys[id], pre.current_root, signature),
    ensures
        signatures_verified(post, keys),
{
    if exists|id: Seq<char>, signature: Seq<u8>|
        post == #[trigger] pre.after_signature(id, signature) {
        let (id, signature) = choose|id: Seq<char>, signature: Seq<u8>|
            post == #[trigger] pre.after_signature(id, signature);
        let epoch = pre.current_epoch;
        assert forall|e: u64, i: int|
            post.multi_sigs.contains_key(e) && 0 <= i < post.multi_sigs[e].signatures.len() implies {
            let entry = #[trigger] post.multi_sigs[e].signatures[i];
            keys.contains_key(entry.0) && bls_accepts(keys[entry.0], post.multi_sigs[e].root, entry.1)
        } by {
            if e != epoch {
                assert(pre.multi_sigs.contains_key(e));
                let entry = pre.multi_sigs[e].signatures[i];
            } else if pre.multi_sigs.contains_key(epoch) {
                let old_record = pre.multi_sigs[epoch];
                assert(old_record.root == pre.current_root);
                if i < old_record.signatures.len() {
                    let entry = pre.multi_sigs[e].signatures[i];
                }
            }
        }
    } else {
        assert forall|e: u64, i: int|
            post.multi_sigs.contains_key(e) && 0 <= i < post.multi_sigs[e].signatures.len() implies {
            let entry = #[trigger] post.multi_sigs[e].signatures[i];
            keys.contains_key(entry.0) && bls_accepts(keys[entry.0], post.multi_sigs[e].root, entry.1)
        } by {
            assert(pre.multi_sigs.contains_key(e));
            let entry = pre.multi_sigs[e].signatures[i];
        }
    }
}

/// A server that hears of a peer's prepare is in the prepare of its own current
/// epoch afterwards, whatever it was in before: the prepare of one server
/// reaches every server that its announcement reaches.
pub proof fn lemma_prepare_spreads(state: StateView, from: Seq<char>, epoch: u64, now: u64)
    requires
        state.wf(),
    ensures
        ({
            let heard = state.after_peer_prepare(from, epoch);
            let post = if state.run_state is Normal {
                heard.after_prepare(now)
            } else {
                heard
            };
            post.run_state == RunState::Prepare(state.current_epoch)
        }),
{
}

} // verus!
