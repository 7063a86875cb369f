//! The messages of the outer service and the handlers that answer them.

use crate::error::ServerError;
use crate::server::synchronization::{
    client_fan_out, fan_out, outbound_views, peer_answer, prepare_request, receive_answer,
    MerkleVerseServerState, Outbound, RunState,
};
use crate::server::transactions::{offer_answer, TransactionView};
use crate::server::{MerkleVerseServer, ServerId};
use vstd::prelude::*;
use vstd::string::StringExecFns;

verus! {

/// What a request asks the store to do with a key.
#[derive(Clone, Copy, Debug, PartialEq, Eq, Structural)]
pub enum TransactionType {
    Update,
    Delete,
}

impl TransactionType {
    /// The number that stands for the type on the wire and in a request's digest.
    pub open spec fn code_of(self) -> u32 {
        match self {
            TransactionType::Update => 0,
            TransactionType::Delete => 1,
        }
    }

    pub fn code(&self) -> (code: u32)
        ensures
            code == self.code_of(),
    {
        match self {
            TransactionType::Update => 0,
            TransactionType::Delete => 1,
        }
    }
}

/// View of an optional byte string.
pub open spec fn opt_bytes(bytes: Option<Vec<u8>>) -> Option<Seq<u8>> {
    match bytes {
        Some(b) => Some(b@),
        None => None,
    }
}

/// Copies an optional byte string.
pub fn clone_opt_bytes(bytes: &Option<Vec<u8>>) -> (res: Option<Vec<u8>>)
    ensures
        opt_bytes(res) == opt_bytes(*bytes),
{
    match bytes {
        Some(b) => Some(b.clone()),
        None => None,
    }
}

/// A write against one shard: the key, the value where there is one, and the type.
#[derive(Debug)]
pub struct TransactionRequest {
    pub key: Vec<u8>,
    pub value: Option<Vec<u8>>,
    pub transaction_type: TransactionType,
}

pub ghost struct TransactionRequestView {
    pub key: Seq<u8>,
    pub value: Option<Seq<u8>>,
    pub transaction_type: TransactionType,
}

impl View for TransactionRequest {
    type V = TransactionRequestView;

    open spec fn view(&self) -> TransactionRequestView {
        TransactionRequestView {
            key: self.key@,
            value: opt_bytes(self.value),
            transaction_type: self.transaction_type,
        }
    }
}

impl Clone for TransactionRequest {
    fn clone(&self) -> (res: Self)
        ensures
            res@ == self@,
    {
        TransactionRequest {
            key: self.key.clone(),
            value: clone_opt_bytes(&self.value),
            transaction_type: self.transaction_type,
        }
    }
}

/// View of an optional request.
pub open spec fn opt_request(request: Option<TransactionRequest>) -> Option<
    TransactionRequestView,
> {
    match request {
        Some(r) => Some(r@),
        None => None,
    }
}

/// An epoch number as it travels in a request.
#[derive(Clone, Copy, Debug, PartialEq, Eq, Structural)]
pub struct Epoch {
    pub epoch: u64,
}

/// The epoch in an optional `Epoch`.
pub open spec fn opt_epoch(epoch: Option<Epoch>) -> Option<u64> {
    match epoch {
        Some(e) => Some(e.epoch),
        None => None,
    }
}

/// The name under which a server presents itself to its peers.
#[derive(Debug)]
pub struct ServerIdentity {
    pub server_id: String,
}

/// The name in an optional `ServerIdentity`.
pub open spec fn opt_identity(identity: Option<ServerIdentity>) -> Option<Seq<char>> {
    match identity {
        Some(i) => Some(i.server_id@),
        None => None,
    }
}

/// A write that a client submits.
#[derive(Debug)]
pub struct ClientTransactionRequest {
    pub transaction: Option<TransactionRequest>,
    pub auxiliary: Option<Vec<u8>>,
}

pub ghost struct ClientTransactionRequestView {
    pub transaction: Option<TransactionRequestView>,
    pub auxiliary: Option<Seq<u8>>,
}

impl View for ClientTransactionRequest {
    type V = ClientTransactionRequestView;

    open spec fn view(&self) -> ClientTransactionRequestView {
        ClientTransactionRequestView {
            transaction: opt_request(self.transaction),
            auxiliary: opt_bytes(self.auxiliary),
        }
    }
}

/// A client's write as one server passes it on to a parallel peer, signed.
#[derive(Debug)]
pub struct PeerTransactionRequest {
    pub transaction: Option<TransactionRequest>,
    pub server_id: String,
    pub epoch: Option<Epoch>,
    pub signature: Vec<u8>,
    pub auxiliary: Option<Vec<u8>>,
}

pub ghost struct PeerTransactionRequestView {
    pub transaction: Option<TransactionRequestView>,
    pub server_id: Seq<char>,
    pub epoch: Option<u64>,
    pub signature: Seq<u8>,
    pub auxiliary: Option<Seq<u8>>,
}

impl View for PeerTransactionRequest {
    type V = PeerTransactionRequestView;

    open spec fn view(&self) -> PeerTransactionRequestView {
        PeerTransactionRequestView {
            transaction: opt_request(self.transaction),
            server_id: self.server_id@,
            epoch: opt_epoch(self.epoch),
            signature: self.signature@,
            auxiliary: opt_bytes(self.auxiliary),
        }
    }
}

/// The announcement that a server is about to commit an epoch.
#[derive(Debug)]
pub struct PeerPrepareRequest {
    pub epoch: Option<Epoch>,
    pub peer_identity: Option<ServerIdentity>,
}

pub ghost struct PeerPrepareRequestView {
    pub epoch: Option<u64>,
    pub peer_identity: Option<Seq<char>>,
}

impl View for PeerPrepareRequest {
    type V = PeerPrepareRequestView;

    open spec fn view(&self) -> PeerPrepareRequestView {
        PeerPrepareRequestView {
            epoch: opt_epoch(self.epoch),
            peer_identity: opt_identity(self.peer_identity),
        }
    }
}

/// A server's signature over the root of an epoch.
#[derive(Debug)]
pub struct PeerCommitRequest {
    pub peer_identity: Option<ServerIdentity>,
    pub epoch: Option<Epoch>,
    pub head: Vec<u8>,
    pub signature: Vec<u8>,
}

pub ghost struct PeerCommitRequestView {
    pub peer_identity: Option<Seq<char>>,
    pub epoch: Option<u64>,
    pub head: Seq<u8>,
    pub signature: Seq<u8>,
}

impl View for PeerCommitRequest {
    type V = PeerCommitRequestView;

    open spec fn view(&self) -> PeerCommitRequestView {
        PeerCommitRequestView {
            peer_identity: opt_identity(self.peer_identity),
            epoch: opt_epoch(self.epoch),
            head: self.head@,
            signature: self.signature@,
        }
    }
}

/// Copies an optional request.
pub fn clone_opt_request(request: &Option<TransactionRequest>) -> (res: Option<TransactionRequest>)
    ensures
        opt_request(res) == opt_request(*request),
{
    match request {
        Some(r) => Some(r.clone()),
        None => None,
    }
}

/// Copies an optional identity.
pub fn clone_opt_identity(identity: &Option<ServerIdentity>) -> (res: Option<ServerIdentity>)
    ensures
        opt_identity(res) == opt_identity(*identity),
{
    match identity {
        Some(i) => Some(ServerIdentity { server_id: i.server_id.clone() }),
        None => None,
    }
}

impl Clone for ClientTransactionRequest {
    fn clone(&self) -> (res: Self)
        ensures
            res@ == self@,
    {
        ClientTransactionRequest {
            transaction: clone_opt_request(&self.transaction),
            auxiliary: clone_opt_bytes(&self.auxiliary),
        }
    }
}

impl Clone for PeerTransactionRequest {
    fn clone(&self) -> (res: Self)
        ensures
            res@ == self@,
    {
        PeerTransactionRequest {
            transaction: clone_opt_request(&self.transaction),
            server_id: self.server_id.clone(),
            epoch: self.epoch,
            signature: self.signature.clone(),
            auxiliary: clone_opt_bytes(&self.auxiliary),
        }
    }
}

impl Clone for PeerPrepareRequest {
    fn clone(&self) -> (res: Self)
        ensures
            res@ == self@,
    {
        PeerPrepareRequest {
            epoch: self.epoch,
            peer_identity: clone_opt_identity(&self.peer_identity),
        }
    }
}

impl Clone for PeerCommitRequest {
    fn clone(&self) -> (res: Self)
        ensures
            res@ == self@,
    {
        PeerCommitRequest {
            peer_identity: clone_opt_identity(&self.peer_identity),
            epoch: self.epoch,
            head: self.head.clone(),
            signature: self.signature.clone(),
        }
    }
}

/// How a submitted transaction ended.
#[derive(Clone, Copy, Debug, PartialEq, Eq, Structural)]
pub enum TransactionResult {
    /// The transaction entered the pool.
    Inserted,
    /// The pool already held the transaction.
    Duplicate,
}

/// The answer to a submitted transaction.
#[derive(Clone, Copy, Debug, PartialEq, Eq, Structural)]
pub struct TransactionResponse {
    pub status: TransactionResult,
}

/// The answer of a server that is asked who it is.
#[derive(Debug)]
pub struct ServerInformationResponse {
    pub server_name: String,
    pub server_id: String,
}

/// The status that tells a client how the pool answered.
pub open spec fn status_of(answer: Option<()>) -> TransactionResult {
    match answer {
        None => TransactionResult::Inserted,
        Some(_) => TransactionResult::Duplicate,
    }
}

impl MerkleVerseServer {
    /// Tells who this server is.
    pub fn get_server_information(&self) -> (res: ServerInformationResponse)
        ensures
            res.server_name@ == "Outer Merkle Verse Server"@,
            res.server_id@ == self@.id,
    {
        ServerInformationResponse {
            server_name: String::from_str("Outer Merkle Verse Server"),
            server_id: self.server_identity().server_id,
        }
    }

    /// Takes a client's transaction, without waiting for its commit: the answer
    /// tells whether it entered the pool, and with it come the requests that
    /// pass it on to the parallel peers.
    pub fn client_transaction(
        &self,
        state: &mut MerkleVerseServerState,
        request: ClientTransactionRequest,
    ) -> (res: Result<(TransactionResponse, Vec<Outbound>), ServerError>)
        requires
            old(state).wf(),
            old(state)@.run_state is Prepare ==> old(state)@.current_epoch < u64::MAX,
        ensures
            final(state).wf(),
            match TransactionView::of_client(request@) {
                None => res matches Err(e) && e == ServerError::MissingField && final(state)@
                    == old(state)@,
                Some(t) => {
                    let epoch = old(state)@.target_epoch();
                    &&& final(state)@ == old(state)@.after_offer(epoch, t)
                    &&& res matches Ok(r)
                    &&& r.0.status == status_of(offer_answer(old(state)@.pool, epoch, t))
                    &&& outbound_views(r.1@) == client_fan_out(self@, old(state)@, request@)
                },
            },
    {
        match self.receive_client_transaction(state, request, false) {
            Ok(receipt) => Ok(
                (
                    TransactionResponse {
                        status: match receipt.answer {
                            None => TransactionResult::Inserted,
                            Some(_) => TransactionResult::Duplicate,
                        },
                    },
                    receipt.outbound,
                ),
            ),
            Err(e) => Err(e),
        }
    }

    /// Takes a transaction that a parallel peer passed on: the answer tells
    /// whether it entered the pool.
    pub fn peer_transaction(
        &self,
        state: &mut MerkleVerseServerState,
        request: PeerTransactionRequest,
    ) -> (res: Result<TransactionResponse, ServerError>)
        requires
            old(state).wf(),
            self.wf(),
        ensures
            final(state).wf(),
            match peer_answer(self@, old(state)@, request@) {
                Ok(answer) => res matches Ok(r) && r.status == status_of(answer),
                Err(error) => res matches Err(e) && e == error,
            },
            final(state)@ == match (res, request@.epoch, TransactionView::of_peer(request@)) {
                (Ok(_), Some(epoch), Some(t)) => old(state)@.after_offer(epoch, t),
                _ => old(state)@,
            },
    {
        match self.receive_peer_transaction(state, request) {
            Ok(answer) => Ok(
                TransactionResponse {
                    status: match answer {
                        None => TransactionResult::Inserted,
                        Some(_) => TransactionResult::Duplicate,
                    },
                },
            ),
            Err(e) => Err(e),
        }
    }

    /// Takes a peer's announcement of a prepare. It must name its epoch and
    /// its sender.
    pub fn peer_prepare(
        &self,
        state: &mut MerkleVerseServerState,
        request: PeerPrepareRequest,
        now: u64,
    ) -> (res: Result<Vec<Outbound>, ServerError>)
        requires
            old(state).wf(),
        ensures
            final(state).wf(),
            match (request@.epoch, request@.peer_identity) {
                (Some(epoch), Some(from)) => match old(state)@.run_state {
                    RunState::Prepare(_) => res matches Ok(out) && out@.len() == 0
                        && final(state)@ == old(state)@.after_peer_prepare(from, epoch),
                    RunState::Normal => res matches Ok(out) && outbound_views(out@) == fan_out(
                        self@.parallels(),
                        prepare_request(self@.id, old(state)@.current_epoch),
                    ) && final(state)@ == old(state)@.after_peer_prepare(from, epoch).after_prepare(
                        now,
                    ),
                },
                _ => res matches Err(e) && e == ServerError::MissingField && final(state)@
                    == old(state)@,
            },
    {
        let epoch = match request.epoch {
            Some(e) => e.epoch,
            None => {
                return Err(ServerError::MissingField);
            },
        };
        let from = match request.peer_identity {
            Some(i) => ServerId(i.server_id),
            None => {
                return Err(ServerError::MissingField);
            },
        };
        self.receive_prepare(state, epoch, from, now)
    }

    /// Takes a peer's signature over the root of an epoch. It must name its
    /// epoch and its sender.
    pub fn peer_commit(&self, state: &mut MerkleVerseServerState, request: PeerCommitRequest) -> (res:
        Result<(), ServerError>)
        requires
            old(state).wf(),
        ensures
            final(state).wf(),
            match (request@.epoch, request@.peer_identity) {
                (Some(epoch), Some(from)) => res == receive_answer(
                    old(state)@,
                    epoch,
                    request@.head,
                    request@.signature,
                ) && final(state)@ == if res is Ok {
                    old(state)@.after_signature(from, request@.signature)
                } else {
                    old(state)@
                },
                _ => res == Err::<(), ServerError>(ServerError::MissingField) && final(state)@
                    == old(state)@,
            },
    {
        let epoch = match request.epoch {
            Some(e) => e.epoch,
            None => {
                return Err(ServerError::MissingField);
            },
        };
        let from = match request.peer_identity {
            Some(i) => ServerId(i.server_id),
            None => {
                return Err(ServerError::MissingField);
            },
        };
        self.receive_signatures(state, &from, epoch, &request.head, &request.signature)
    }
}

} // verus!
