use merkleverse::error::ServerError;
use merkleverse::grpc_handler::outer::{
    ClientTransactionRequest, Epoch, PeerTransactionRequest, TransactionRequest, TransactionType,
};
use merkleverse::server::transactions::{
    Transaction, TransactionOp, TransactionPool, TransactionSource,
};
use merkleverse::server::{Index, ServerId};

fn update(key: Vec<u8>, value: Vec<u8>) -> TransactionRequest {
    TransactionRequest { key, value: Some(value), transaction_type: TransactionType::Update }
}

fn client(request: TransactionRequest) -> ClientTransactionRequest {
    ClientTransactionRequest { transaction: Some(request), auxiliary: None }
}

fn peer(request: TransactionRequest, from: &str, epoch: u64) -> PeerTransactionRequest {
    PeerTransactionRequest {
        transaction: Some(request),
        server_id: from.to_string(),
        epoch: Some(Epoch { epoch }),
        signature: Vec::new(),
        auxiliary: None,
    }
}

#[test]
fn operation_of_a_request() {
    let op = TransactionOp::try_from(&update(vec![1, 2], vec![3])).unwrap();
    assert!(matches!(&op, TransactionOp::Update(index, value)
        if index.index == vec![1, 2] && index.length == 2 && value == &vec![3]));
    assert_eq!(op.to_raw(), (vec![1, 2], Some(vec![3])));

    let delete = TransactionRequest {
        key: vec![9],
        value: Some(vec![1]),
        transaction_type: TransactionType::Delete,
    };
    let op = TransactionOp::try_from(&delete).unwrap();
    assert!(matches!(&op, TransactionOp::Delete(index) if index.index == vec![9]));
    assert_eq!(op.to_raw(), (vec![9], None));

    let no_value =
        TransactionRequest { key: vec![9], value: None, transaction_type: TransactionType::Update };
    assert!(matches!(TransactionOp::try_from(&no_value), Err(ServerError::MissingField)));

    let empty_key = TransactionOp::try_from(&update(Vec::new(), vec![0xab])).unwrap();
    assert_eq!(empty_key.to_raw(), (Vec::new(), Some(vec![0xab])));
}

#[test]
fn register_travels_as_update() {
    let register = Transaction {
        source: TransactionSource::Client,
        operation: TransactionOp::Register(Index::from(vec![1]), vec![2]),
        auxiliary: None,
    };
    let request = register.to_request();
    assert_eq!(request.key, vec![1]);
    assert_eq!(request.value, Some(vec![2]));
    assert_eq!(request.transaction_type, TransactionType::Update);
    assert_eq!(register.operation.to_raw(), (vec![1], Some(vec![2])));
    let update = Transaction {
        source: TransactionSource::Client,
        operation: TransactionOp::Update(Index::from(vec![1]), vec![2]),
        auxiliary: None,
    };
    assert!(!register.same_entry(&update));
    assert!(!register.operation.same(&update.operation));
    let delete = Transaction {
        source: TransactionSource::Client,
        operation: TransactionOp::Delete(Index::from(vec![1])),
        auxiliary: None,
    };
    assert_eq!(delete.to_request().transaction_type, TransactionType::Delete);
    assert_eq!(delete.to_request().value, None);
}

#[test]
fn transactions_of_requests() {
    let mut request = client(update(vec![1], vec![2]));
    request.auxiliary = Some(vec![7]);
    let t = Transaction::from_client(&request).unwrap();
    assert!(matches!(t.source, TransactionSource::Client));
    assert_eq!(t.auxiliary, Some(vec![7]));
    assert_eq!(t.operation.to_raw(), (vec![1], Some(vec![2])));

    let t = Transaction::from_peer(&peer(update(vec![1], vec![2]), "srv_4", 3)).unwrap();
    assert!(matches!(&t.source, TransactionSource::Peer(ServerId(id)) if id == "srv_4"));

    let nothing = ClientTransactionRequest { transaction: None, auxiliary: None };
    assert!(matches!(Transaction::from_client(&nothing), Err(ServerError::MissingField)));
    let mut nothing = peer(update(vec![1], vec![2]), "srv_4", 3);
    nothing.transaction = None;
    assert!(matches!(Transaction::from_peer(&nothing), Err(ServerError::MissingField)));
}

#[test]
fn client_transaction_enters_once() {
    let mut pool = TransactionPool::new();
    let request = client(update(vec![1], vec![2]));
    assert_eq!(pool.insert_client(0, &request), Ok(None));
    assert_eq!(pool.insert_client(0, &request), Ok(Some(())));
    assert_eq!(pool.insert_client(0, &client(update(vec![5], vec![6]))), Ok(None));
    assert_eq!(pool.insert_client(0, &request), Ok(Some(())));
    assert_eq!(pool.count(0), 2);
    assert_eq!(pool.get_epoch(0).unwrap().len(), 2);
    // Another epoch is another set.
    assert_eq!(pool.insert_client(1, &request), Ok(None));
    assert_eq!(pool.count(1), 1);
}

#[test]
fn auxiliary_bytes_do_not_tell_transactions_apart() {
    let mut pool = TransactionPool::new();
    let mut request = client(update(vec![1], vec![2]));
    assert_eq!(pool.insert_client(0, &request), Ok(None));
    request.auxiliary = Some(vec![1, 2, 3]);
    assert_eq!(pool.insert_client(0, &request), Ok(Some(())));
    assert_eq!(pool.get_epoch(0).unwrap()[0].auxiliary, None);
}

#[test]
fn echoes_of_different_peers_are_one_entry() {
    let mut pool = TransactionPool::new();
    assert_eq!(pool.insert_peer(peer(update(vec![1], vec![2]), "srv_1", 4)), Ok(None));
    assert_eq!(pool.insert_peer(peer(update(vec![1], vec![2]), "srv_2", 4)), Ok(Some(())));
    assert_eq!(pool.count(4), 1);
    let held = &pool.get_epoch(4).unwrap()[0];
    assert!(matches!(&held.source, TransactionSource::Peer(ServerId(id)) if id == "srv_1"));
    // A client's transaction and a peer's echo of it are two entries.
    assert_eq!(pool.insert_client(4, &client(update(vec![1], vec![2]))), Ok(None));
    assert_eq!(pool.count(4), 2);
    // Another value is another entry.
    assert_eq!(pool.insert_peer(peer(update(vec![1], vec![3]), "srv_1", 4)), Ok(None));
    assert_eq!(pool.count(4), 3);
}

#[test]
fn peer_transaction_needs_epoch_and_transaction() {
    let mut pool = TransactionPool::new();
    let mut request = peer(update(vec![1], vec![2]), "srv_1", 4);
    request.epoch = None;
    assert_eq!(pool.insert_peer(request), Err(ServerError::MissingField));
    let mut request = peer(update(vec![1], vec![2]), "srv_1", 4);
    request.transaction = None;
    assert_eq!(pool.insert_peer(request), Err(ServerError::MissingField));
    let no_value =
        TransactionRequest { key: vec![1], value: None, transaction_type: TransactionType::Update };
    assert_eq!(pool.insert_peer(peer(no_value.clone(), "srv_1", 4)), Err(ServerError::MissingField));
    assert_eq!(pool.insert_client(4, &client(no_value)), Err(ServerError::MissingField));
    assert!(pool.get_epoch(4).is_none());
    assert_eq!(pool.count(4), 0);
}

#[test]
fn purge_drops_the_epochs_before() {
    let mut pool = TransactionPool::new();
    for epoch in 0..6u64 {
        assert_eq!(pool.insert_client(epoch, &client(update(vec![1], vec![2]))), Ok(None));
    }
    assert_eq!(pool.purge_before(3), Ok(()));
    for epoch in 0..3u64 {
        assert!(pool.get_epoch(epoch).is_none());
    }
    for epoch in 3..6u64 {
        assert_eq!(pool.get_epoch(epoch).unwrap().len(), 1);
    }
    assert_eq!(pool.purge_before(0), Ok(()));
    assert_eq!(pool.count(3), 1);
    // What was purged can enter again.
    assert_eq!(pool.insert_client(1, &client(update(vec![1], vec![2]))), Ok(None));
    assert_eq!(pool.purge_before(u64::MAX), Ok(()));
    assert_eq!(pool.count(5), 0);
}

#[test]
fn insert_transaction_keeps_the_first_of_two_same_entries() {
    let mut pool = TransactionPool::new();
    let first = Transaction {
        source: TransactionSource::Peer(ServerId("a".to_string())),
        operation: TransactionOp::Delete(Index::from(vec![1])),
        auxiliary: Some(vec![1]),
    };
    let second = Transaction {
        source: TransactionSource::Peer(ServerId("b".to_string())),
        operation: TransactionOp::Delete(Index::from(vec![1])),
        auxiliary: Some(vec![2]),
    };
    assert!(first.same_entry(&second));
    assert_eq!(pool.insert_transaction(9, first), Ok(None));
    assert_eq!(pool.insert_transaction(9, second), Ok(Some(())));
    assert_eq!(pool.get_epoch(9).unwrap()[0].auxiliary, Some(vec![1]));
}
