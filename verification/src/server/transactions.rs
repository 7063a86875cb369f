//! Transactions and the pool that holds them, per epoch, as sets.

use crate::error::ServerError;
use crate::grpc_handler::outer::{
    clone_opt_bytes, opt_bytes, ClientTransactionRequest, ClientTransactionRequestView,
    PeerTransactionRequest, PeerTransactionRequestView, TransactionRequest,
    TransactionRequestView, TransactionType,
};
use crate::server::{Index, IndexView, ServerId};
use std::collections::HashMap;
use vstd::prelude::*;
use vstd::std_specs::iter::IteratorSpec;

verus! {

/// Where a transaction came from.
#[derive(Debug)]
pub enum TransactionSource {
    Peer(ServerId),
    Client,
}

pub ghost enum TransactionSourceView {
    Peer(Seq<char>),
    Client,
}

impl View for TransactionSource {
    type V = TransactionSourceView;

    open spec fn view(&self) -> TransactionSourceView {
        match self {
            TransactionSource::Peer(id) => TransactionSourceView::Peer(id@),
            TransactionSource::Client => TransactionSourceView::Client,
        }
    }
}

impl Clone for TransactionSource {
    fn clone(&self) -> (res: Self)
        ensures
            res@ == self@,
    {
        match self {
            TransactionSource::Peer(id) => TransactionSource::Peer(id.clone()),
            TransactionSource::Client => TransactionSource::Client,
        }
    }
}

/// What a transaction does to the shard.
#[derive(Debug)]
pub enum TransactionOp {
    Register(Index, Vec<u8>),
    Update(Index, Vec<u8>),
    Delete(Index),
}

pub ghost enum TransactionOpView {
    Register(IndexView, Seq<u8>),
    Update(IndexView, Seq<u8>),
    Delete(IndexView),
}

impl TransactionOpView {
    /// The key that the operation addresses and the value that it writes.
    pub open spec fn raw(self) -> (Seq<u8>, Option<Seq<u8>>) {
        match self {
            TransactionOpView::Register(index, value) => (index.index, Some(value)),
            TransactionOpView::Update(index, value) => (index.index, Some(value)),
            TransactionOpView::Delete(index) => (index.index, None),
        }
    }

    /// The operation that a request asks for: an update needs a value, a delete
    /// ignores one.
    pub open spec fn of_request(request: TransactionRequestView) -> Option<TransactionOpView> {
        let index = IndexView { index: request.key, length: request.key.len() as u32 };
        match request.transaction_type {
            TransactionType::Update => match request.value {
                Some(value) => Some(TransactionOpView::Update(index, value)),
                None => None,
            },
            TransactionType::Delete => Some(TransactionOpView::Delete(index)),
        }
    }

    /// The request that carries the operation to the store: a registration
    /// travels as an update.
    pub open spec fn request(self) -> TransactionRequestView {
        TransactionRequestView {
            key: self.raw().0,
            value: self.raw().1,
            transaction_type: match self {
                TransactionOpView::Delete(_) => TransactionType::Delete,
                _ => TransactionType::Update,
            },
        }
    }
}

impl View for TransactionOp {
    type V = TransactionOpView;

    open spec fn view(&self) -> TransactionOpView {
        match self {
            TransactionOp::Register(index, value) => TransactionOpView::Register(index@, value@),
            TransactionOp::Update(index, value) => TransactionOpView::Update(index@, value@),
            TransactionOp::Delete(index) => TransactionOpView::Delete(index@),
        }
    }
}

impl Clone for TransactionOp {
    fn clone(&self) -> (res: Self)
        ensures
            res@ == self@,
    {
        match self {
            TransactionOp::Register(index, value) => TransactionOp::Register(
                index.clone(),
                value.clone(),
            ),
            TransactionOp::Update(index, value) => TransactionOp::Update(
                index.clone(),
                value.clone(),
            ),
            TransactionOp::Delete(index) => TransactionOp::Delete(index.clone()),
        }
    }
}

impl TransactionOp {
    /// The key and, where the operation writes one, the value.
    pub fn to_raw(&self) -> (res: (Vec<u8>, Option<Vec<u8>>))
        ensures
            (res.0@, opt_bytes(res.1)) == self@.raw(),
    {
        match self {
            Self::Register(index, value) => (index.index.clone(), Some(value.clone())),
            Self::Update(index, value) => (index.index.clone(), Some(value.clone())),
            Self::Delete(index) => (index.index.clone(), None),
        }
    }

    /// Reads the operation that a request asks for.
    pub fn try_from(request: &TransactionRequest) -> (res: Result<Self, ServerError>)
        ensures
            match TransactionOpView::of_request(request@) {
                Some(op) => res matches Ok(o) && o@ == op,
                None => res matches Err(e) && e == ServerError::MissingField,
            },
    {
        match request.transaction_type {
            TransactionType::Update => match &request.value {
                None => Err(ServerError::MissingField),
                Some(value) => Ok(
                    Self::Update(
                        Index { length: request.key.len() as u32, index: request.key.clone() },
                        value.clone(),
                    ),
                ),
            },
            TransactionType::Delete => Ok(
                Self::Delete(
                    Index { length: request.key.len() as u32, index: request.key.clone() },
                ),
            ),
        }
    }

    /// Whether two operations are the same.
    pub fn same(&self, other: &TransactionOp) -> (res: bool)
        ensures
            res == (self@ == other@),
    {
        match (self, other) {
            (Self::Register(i, v), Self::Register(j, w)) => {
                let equal = *v == *w;
                assert(equal == (v@ =~= w@));
                i.same(j) && equal
            },
            (Self::Update(i, v), Self::Update(j, w)) => {
                let equal = *v == *w;
                assert(equal == (v@ =~= w@));
                i.same(j) && equal
            },
            (Self::Delete(i), Self::Delete(j)) => i.same(j),
            _ => false,
        }
    }
}

/// A pending write, with its origin.
#[derive(Debug)]
pub struct Transaction {
    pub source: TransactionSource,
    pub operation: TransactionOp,
    pub auxiliary: Option<Vec<u8>>,
}

pub ghost struct TransactionView {
    pub source: TransactionSourceView,
    pub operation: TransactionOpView,
    pub auxiliary: Option<Seq<u8>>,
}

impl TransactionView {
    /// What decides whether two transactions are the same entry of a pool: the
    /// kind of source (any peer counts as one) and the operation. Neither the
    /// peer's name nor the auxiliary bytes enter.
    pub open spec fn key(self) -> (bool, TransactionOpView) {
        (self.source is Peer, self.operation)
    }

    /// The transaction that a client's request stands for.
    pub open spec fn of_client(request: ClientTransactionRequestView) -> Option<TransactionView> {
        match request.transaction {
            Some(t) => match TransactionOpView::of_request(t) {
                Some(operation) => Some(
                    TransactionView {
                        source: TransactionSourceView::Client,
                        operation,
                        auxiliary: request.auxiliary,
                    },
                ),
                None => None,
            },
            None => None,
        }
    }

    /// The transaction that a peer's request stands for.
    pub open spec fn of_peer(request: PeerTransactionRequestView) -> Option<TransactionView> {
        match request.transaction {
            Some(t) => match TransactionOpView::of_request(t) {
                Some(operation) => Some(
                    TransactionView {
                        source: TransactionSourceView::Peer(request.server_id),
                        operation,
                        auxiliary: request.auxiliary,
                    },
                ),
                None => None,
            },
            None => None,
        }
    }
}

impl View for Transaction {
    type V = TransactionView;

    open spec fn view(&self) -> TransactionView {
        TransactionView {
            source: self.source@,
            operation: self.operation@,
            auxiliary: opt_bytes(self.auxiliary),
        }
    }
}

impl Clone for Transaction {
    fn clone(&self) -> (res: Self)
        ensures
            res@ == self@,
    {
        Transaction {
            source: self.source.clone(),
            operation: self.operation.clone(),
            auxiliary: clone_opt_bytes(&self.auxiliary),
        }
    }
}

impl Transaction {
    /// Reads the transaction in a peer's request.
    pub fn from_peer(trans: &PeerTransactionRequest) -> (res: Result<Self, ServerError>)
        ensures
            match TransactionView::of_peer(trans@) {
                Some(t) => res matches Ok(r) && r@ == t,
                None => res matches Err(e) && e == ServerError::MissingField,
            },
    {
        let operation = match &trans.transaction {
            None => {
                return Err(ServerError::MissingField);
            },
            Some(t) => match TransactionOp::try_from(t) {
                Ok(op) => op,
                Err(e) => {
                    return Err(e);
                },
            },
        };
        Ok(
            Self {
                auxiliary: clone_opt_bytes(&trans.auxiliary),
                source: TransactionSource::Peer(ServerId(trans.server_id.clone())),
                operation,
            },
        )
    }

    /// Reads the transaction in a client's request.
    pub fn from_client(trans: &ClientTransactionRequest) -> (res: Result<Self, ServerError>)
        ensures
            match TransactionView::of_client(trans@) {
                Some(t) => res matches Ok(r) && r@ == t,
                None => res matches Err(e) && e == ServerError::MissingField,
            },
    {
        let operation = match &trans.transaction {
            None => {
                return Err(ServerError::MissingField);
            },
            Some(t) => match TransactionOp::try_from(t) {
                Ok(op) => op,
                Err(e) => {
                    return Err(e);
                },
            },
        };
        Ok(
            Self {
                auxiliary: clone_opt_bytes(&trans.auxiliary),
                source: TransactionSource::Client,
                operation,
            },
        )
    }

    /// The request that carries this transaction to the store.
    pub fn to_request(&self) -> (res: TransactionRequest)
        ensures
            res@ == self@.operation.request(),
    {
        let (key, value) = self.operation.to_raw();
        TransactionRequest {
            key,
            value,
            transaction_type: match &self.operation {
                TransactionOp::Register(_, _) => TransactionType::Update,
                TransactionOp::Update(_, _) => TransactionType::Update,
                TransactionOp::Delete(_) => TransactionType::Delete,
            },
        }
    }

    /// Whether two transactions are the same entry of a pool.
    pub fn same_entry(&self, other: &Transaction) -> (res: bool)
        ensures
            res == (self@.key() == other@.key()),
    {
        let peer = match self.source {
            TransactionSource::Peer(_) => true,
            TransactionSource::Client => false,
        };
        let other_peer = match other.source {
            TransactionSource::Peer(_) => true,
            TransactionSource::Client => false,
        };
        peer == other_peer && self.operation.same(&other.operation)
    }
}

/// The views of a sequence of transactions.
pub open spec fn views(transactions: Seq<Transaction>) -> Seq<TransactionView> {
    transactions.map_values(|t: Transaction| t@)
}

/// No two entries of a bucket are the same entry.
pub open spec fn distinct_entries(bucket: Seq<TransactionView>) -> bool {
    forall|i: int, j: int|
        0 <= i < bucket.len() && 0 <= j < bucket.len() && #[trigger] bucket[i].key()
            == #[trigger] bucket[j].key() ==> i == j
}

/// Whether a bucket holds an entry that is the same as `t`.
pub open spec fn bucket_holds(bucket: Seq<TransactionView>, t: TransactionView) -> bool {
    exists|i: int| 0 <= i < bucket.len() && #[trigger] bucket[i].key() == t.key()
}

/// The pending transactions of an epoch; none where the pool has no such epoch.
pub open spec fn bucket_of(pool: Map<u64, Seq<TransactionView>>, epoch: u64) -> Seq<
    TransactionView,
> {
    if pool.contains_key(epoch) {
        pool[epoch]
    } else {
        Seq::empty()
    }
}

/// Whether the pool holds an entry that is the same as `t` at `epoch`.
pub open spec fn pool_holds(
    pool: Map<u64, Seq<TransactionView>>,
    epoch: u64,
    t: TransactionView,
) -> bool {
    bucket_holds(bucket_of(pool, epoch), t)
}

/// The pool after `t` was offered at `epoch`: unchanged where it holds the same
/// entry, else with `t` behind the others of that epoch.
pub open spec fn pool_with(
    pool: Map<u64, Seq<TransactionView>>,
    epoch: u64,
    t: TransactionView,
) -> Map<u64, Seq<TransactionView>> {
    if pool_holds(pool, epoch, t) {
        pool
    } else {
        pool.insert(epoch, bucket_of(pool, epoch).push(t))
    }
}

/// What offering `t` at `epoch` answers: `Some` where the pool holds the same
/// entry already, `None` where `t` entered.
pub open spec fn offer_answer(
    pool: Map<u64, Seq<TransactionView>>,
    epoch: u64,
    t: TransactionView,
) -> Option<()> {
    if pool_holds(pool, epoch, t) {
        Some(())
    } else {
        None
    }
}

/// The pool without the epochs before `epoch`.
pub open spec fn pool_from(pool: Map<u64, Seq<TransactionView>>, epoch: u64) -> Map<
    u64,
    Seq<TransactionView>,
> {
    pool.restrict(Set::new(|e: u64| e >= epoch))
}

/// Every epoch of the pool is a set: no entry occurs twice.
pub open spec fn pool_is_set(pool: Map<u64, Seq<TransactionView>>) -> bool {
    forall|e: u64| #[trigger] pool.contains_key(e) ==> distinct_entries(pool[e])
}

/// Per epoch, the set of pending transactions.
pub struct TransactionPool {
    existence_set: HashMap<u64, Vec<Transaction>>,
}

impl View for TransactionPool {
    type V = Map<u64, Seq<TransactionView>>;

    closed spec fn view(&self) -> Map<u64, Seq<TransactionView>> {
        Map::new(
            |e: u64| self.existence_set@.contains_key(e),
            |e: u64| views(self.existence_set@[e]@),
        )
    }
}

/// The index of the entry of `bucket` that is the same as `t`, if there is one.
fn find_entry(bucket: &Vec<Transaction>, t: &Transaction) -> (res: Option<usize>)
    ensures
        res is Some <==> bucket_holds(views(bucket@), t@),
        res matches Some(i) ==> i < bucket.len() && bucket[i as int]@.key() == t@.key(),
{
    let mut i: usize = 0;
    while i < bucket.len()
        invariant
            i <= bucket.len(),
            forall|k: int| 0 <= k < i ==> (#[trigger] views(bucket@)[k]).key() != t@.key(),
        decreases bucket.len() - i,
    {
        if bucket[i].same_entry(t) {
            assert(views(bucket@)[i as int].key() == t@.key());
            return Some(i);
        }
        i += 1;
    }
    None
}

impl TransactionPool {
    /// Every epoch is a set: no entry occurs twice.
    pub open spec fn wf(&self) -> bool {
        pool_is_set(self@)
    }

    /// An empty pool.
    pub fn new() -> (res: Self)
        ensures
            res@ == Map::<u64, Seq<TransactionView>>::empty(),
            res.wf(),
    {
        let res = Self { existence_set: HashMap::new() };
        assert(res@ =~= Map::<u64, Seq<TransactionView>>::empty());
        res
    }

    /// Offers a peer's transaction at the epoch that the request names. The answer
    /// is `None` where it entered and `Some` where the pool held it already.
    pub fn insert_peer(&mut self, req: PeerTransactionRequest) -> (res: Result<
        Option<()>,
        ServerError,
    >)
        requires
            old(self).wf(),
        ensures
            final(self).wf(),
            match (req@.epoch, TransactionView::of_peer(req@)) {
                (Some(epoch), Some(t)) => res == Ok::<Option<()>, ServerError>(
                    offer_answer(old(self)@, epoch, t),
                ) && final(self)@ == pool_with(old(self)@, epoch, t),
                _ => res == Err::<Option<()>, ServerError>(ServerError::MissingField)
                    && final(self)@ == old(self)@,
            },
    {
        let epoch = match req.epoch {
            Some(e) => e.epoch,
            None => {
                return Err(ServerError::MissingField);
            },
        };
        match Transaction::from_peer(&req) {
            Ok(t) => self.insert_transaction(epoch, t),
            Err(e) => Err(e),
        }
    }

    /// Offers a client's transaction at `epoch`. The answer is `None` where it
    /// entered and `Some` where the pool held it already.
    pub fn insert_client(&mut self, epoch: u64, req: &ClientTransactionRequest) -> (res: Result<
        Option<()>,
        ServerError,
    >)
        requires
            old(self).wf(),
        ensures
            final(self).wf(),
            match TransactionView::of_client(req@) {
                Some(t) => res == Ok::<Option<()>, ServerError>(
                    offer_answer(old(self)@, epoch, t),
                ) && final(self)@ == pool_with(old(self)@, epoch, t),
                None => res == Err::<Option<()>, ServerError>(ServerError::MissingField)
                    && final(self)@ == old(self)@,
            },
    {
        match Transaction::from_client(req) {
            Ok(t) => self.insert_transaction(epoch, t),
            Err(e) => Err(e),
        }
    }

    /// The pending transactions of an epoch, in the order in which they entered.
    /// No two of them are the same entry.
    pub fn get_epoch(&self, epoch: u64) -> (res: Option<&Vec<Transaction>>)
        requires
            self.wf(),
        ensures
            res is Some <==> self@.contains_key(epoch),
            res matches Some(bucket) ==> views(bucket@) == self@[epoch] && distinct_entries(
                views(bucket@),
            ),
    {
        let res = self.existence_set.get(&epoch);
        proof {
            if self@.contains_key(epoch) {
                assert(distinct_entries(self@[epoch]));
            }
        }
        res
    }

    /// How many transactions are pending at an epoch.
    pub fn count(&self, epoch: u64) -> (res: usize)
        ensures
            res == bucket_of(self@, epoch).len(),
    {
        match self.existence_set.get(&epoch) {
            Some(bucket) => bucket.len(),
            None => 0,
        }
    }

    /// Drops every epoch before `epoch`.
    pub fn purge_before(&mut self, epoch: u64) -> (res: Result<(), ServerError>)
        requires
            old(self).wf(),
        ensures
            res is Ok,
            final(self).wf(),
            final(self)@ == pool_from(old(self)@, epoch),
    {
        let mut to_remove: Vec<u64> = Vec::new();
        for ep in it: self.existence_set.keys()
            invariant
                it.seq() == self.existence_set.keys().remaining(),
                forall|k: int|
                    0 <= k < to_remove.len() ==> #[trigger] to_remove[k] < epoch
                        && it.seq().unref().contains(to_remove[k]),
                forall|j: int|
                    0 <= j < it.index() && #[trigger] it.seq().unref()[j] < epoch
                        ==> to_remove@.contains(it.seq().unref()[j]),
        {
            if *ep < epoch {
                let ghost earlier = to_remove@;
                to_remove.push(*ep);
                proof {
                    let all = it.seq().unref();
                    assert(to_remove@[earlier.len() as int] == all[it.index() as int]);
                    assert forall|j: int|
                        0 <= j < it.index() + 1 && #[trigger] all[j] < epoch implies to_remove@.contains(
                        all[j],
                    ) by {
                        if j < it.index() {
                            let k = choose|k: int| 0 <= k < earlier.len() && earlier[k] == all[j];
                            assert(to_remove@[k] == all[j]);
                        }
                    }
                }
            }
        }
        let ghost all = self.existence_set.keys().remaining().unref();
        let ghost before = self.existence_set@;
        proof {
            vstd::std_specs::hash::axiom_spec_keys_iter(&self.existence_set);
        }
        let mut i: usize = 0;
        while i < to_remove.len()
            invariant
                i <= to_remove.len(),
                self.existence_set@ == before.remove_keys(to_remove@.take(i as int).to_set()),
            decreases to_remove.len() - i,
        {
            let ep = to_remove[i];
            self.existence_set.remove(&ep);
            proof {
                let done = to_remove@.take(i as int);
                assert(to_remove@.take(i + 1) == done.push(ep));
                done.lemma_push_to_set_commute(ep);
                assert(self.existence_set@ =~= before.remove_keys(
                    to_remove@.take(i + 1).to_set(),
                ));
            }
            i += 1;
        }
        proof {
            assert(to_remove@.take(to_remove.len() as int) == to_remove@);
            assert forall|e: u64| before.contains_key(e) && e < epoch implies to_remove@.to_set().contains(
                e,
            ) by {
                assert(all.to_set().contains(e));
                let k = choose|k: int| 0 <= k < all.len() && all[k] == e;
                assert(all[k] < epoch);
            }
            assert forall|e: u64| to_remove@.to_set().contains(e) implies e < epoch by {
                let k = choose|k: int| 0 <= k < to_remove.len() && to_remove[k] == e;
                assert(to_remove[k] < epoch);
            }
            assert(self.existence_set@ =~= before.restrict(Set::new(|e: u64| e >= epoch)));
            assert(self@ =~= pool_from(old(self)@, epoch));
        }
        Ok(())
    }

    /// Offers `transaction` at `epoch`.
    pub fn insert_transaction(&mut self, epoch: u64, transaction: Transaction) -> (res: Result<
        Option<()>,
        ServerError,
    >)
        requires
            old(self).wf(),
        ensures
            final(self).wf(),
            res == Ok::<Option<()>, ServerError>(offer_answer(old(self)@, epoch, transaction@)),
            final(self)@ == pool_with(old(self)@, epoch, transaction@),
    {
        let mut bucket = match self.existence_set.remove(&epoch) {
            Some(v) => v,
            None => Vec::new(),
        };
        assert(views(bucket@) == bucket_of(old(self)@, epoch));
        assert(distinct_entries(views(bucket@)));
        let found = find_entry(&bucket, &transaction);
        let ghost held = bucket@;
        if found.is_none() {
            bucket.push(transaction);
            proof {
                assert(views(bucket@) =~= views(held).push(transaction@));
                assert(distinct_entries(views(bucket@)));
            }
            self.existence_set.insert(epoch, bucket);
            assert(self@ =~= pool_with(old(self)@, epoch, transaction@));
            return Ok(None);
        }
        self.existence_set.insert(epoch, bucket);
        assert(self@ =~= old(self)@.insert(epoch, bucket_of(old(self)@, epoch)));
        Ok(Some(()))
    }
}

/// Two entries of one epoch that agree in what decides sameness are one and
/// the same entry: each epoch of a pool is a set.
pub proof fn lemma_same_entry_once(
    pool: Map<u64, Seq<TransactionView>>,
    epoch: u64,
    i: int,
    j: int,
)
    requires
        pool_is_set(pool),
        pool.contains_key(epoch),
        0 <= i < pool[epoch].len(),
        0 <= j < pool[epoch].len(),
        pool[epoch][i].key() == pool[epoch][j].key(),
    ensures
        i == j,
        pool[epoch][i] == pool[epoch][j],
{
    assert(distinct_entries(pool[epoch]));
}

/// Offering a transaction keeps every epoch of the pool a set, and so does
/// dropping old epochs.
pub proof fn lemma_pool_stays_set(pool: Map<u64, Seq<TransactionView>>, epoch: u64, t: TransactionView)
    requires
        pool_is_set(pool),
    ensures
        pool_is_set(pool_with(pool, epoch, t)),
        pool_is_set(pool_from(pool, epoch)),
{
    let after = pool_with(pool, epoch, t);
    assert forall|e: u64| #[trigger] after.contains_key(e) implies distinct_entries(after[e]) by {
        if e == epoch && !pool_holds(pool, epoch, t) {
            let bucket = bucket_of(pool, epoch);
            if pool.contains_key(epoch) {
                assert(distinct_entries(pool[epoch]));
            }
            assert forall|i: int, j: int|
                0 <= i < after[e].len() && 0 <= j < after[e].len() && #[trigger] after[e][i].key()
                    == #[trigger] after[e][j].key() implies i == j by {
                if i < bucket.len() {
                    assert(bucket[i].key() == after[e][i].key());
                }
                if j < bucket.len() {
                    assert(bucket[j].key() == after[e][j].key());
                }
            }
        } else {
            assert(pool.contains_key(e));
        }
    }
    let kept = pool_from(pool, epoch);
    assert forall|e: u64| #[trigger] kept.contains_key(e) implies distinct_entries(kept[e]) by {
        assert(pool.contains_key(e));
    }
}

/// The first offer of a transaction at an epoch enters it; from then on the
/// pool holds it there, and every further offer of it at that epoch is answered
/// as a duplicate and leaves the pool as it is.
pub proof fn lemma_offer_once(pool: Map<u64, Seq<TransactionView>>, epoch: u64, t: TransactionView)
    ensures
        !pool_holds(pool, epoch, t) ==> offer_answer(pool, epoch, t) is None,
        pool_holds(pool_with(pool, epoch, t), epoch, t),
        offer_answer(pool_with(pool, epoch, t), epoch, t) == Some(()),
        pool_with(pool_with(pool, epoch, t), epoch, t) == pool_with(pool, epoch, t),
{
    let after = pool_with(pool, epoch, t);
    if !pool_holds(pool, epoch, t) {
        let bucket = bucket_of(pool, epoch);
        assert(after[epoch][bucket.len() as int].key() == t.key());
    }
}

/// What the pool holds at an epoch it still holds after any other offer: a
/// transaction stays a duplicate for as long as its epoch is not dropped.
pub proof fn lemma_offer_keeps_held(
    pool: Map<u64, Seq<TransactionView>>,
    epoch: u64,
    t: TransactionView,
    later_epoch: u64,
    later: TransactionView,
)
    requires
        pool_holds(pool, epoch, t),
    ensures
        pool_holds(pool_with(pool, later_epoch, later), epoch, t),
{
    let after = pool_with(pool, later_epoch, later);
    let bucket = bucket_of(pool, epoch);
    let i = choose|i: int| 0 <= i < bucket.len() && #[trigger] bucket[i].key() == t.key();
    assert(bucket_of(after, epoch)[i].key() == t.key());
}

} // verus!
