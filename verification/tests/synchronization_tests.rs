use bls_signatures::Serialize;
use merkleverse::config::ServersConfig;
use merkleverse::error::ServerError;
use merkleverse::grpc_handler::outer::{
    ClientTransactionRequest, Epoch, PeerCommitRequest, PeerPrepareRequest,
    PeerTransactionRequest, ServerIdentity, TransactionRequest, TransactionResult,
    TransactionType,
};
use merkleverse::metaconfig::{MetaConfig, PeerGroupConfig};
use merkleverse::server::synchronization::{
    CommitWait, MerkleVerseServerState, Outbound, Request, RunState, COMMIT_AFTER,
    LOOP_INTERVAL, MAX_TRANSACTIONS, MAX_WAKE_UPS, MIN_TRANSACTIONS, PREPARE_AFTER,
};
use merkleverse::server::validation::PrivateKey;
use merkleverse::server::{MerkleVerseServer, ServerId};

fn group(prefix: Option<&str>, prefix_length: Option<u32>, length: u32, count: u32) -> PeerGroupConfig {
    PeerGroupConfig {
        prefix: prefix.map(|p| p.to_string()),
        prefix_length,
        length,
        count,
        epoch_interval: 500,
    }
}

fn seed_of(i: usize) -> [u8; 32] {
    [i as u8 + 1; 32]
}

fn servers(groups: Vec<PeerGroupConfig>) -> Vec<(MerkleVerseServer, MerkleVerseServerState)> {
    let meta = MetaConfig { peer_groups: groups };
    let count = meta.server_count().unwrap();
    let seeds: Vec<[u8; 32]> = (0..count).map(seed_of).collect();
    let configs: Vec<ServersConfig> = meta.serv_configs_with(&seeds).unwrap();
    configs.into_iter().map(|c| MerkleVerseServer::from_cluster_config(c).unwrap()).collect()
}

fn update(key: Vec<u8>, value: Vec<u8>) -> ClientTransactionRequest {
    ClientTransactionRequest {
        transaction: Some(TransactionRequest {
            key,
            value: Some(value),
            transaction_type: TransactionType::Update,
        }),
        auxiliary: None,
    }
}

fn destinations(out: &Vec<Outbound>) -> Vec<String> {
    out.iter().map(|o| o.destination.clone()).collect()
}

#[test]
fn timing_constants() {
    assert_eq!(LOOP_INTERVAL, 1000);
    assert_eq!(PREPARE_AFTER, 1000);
    assert_eq!(COMMIT_AFTER, 1000);
    assert_eq!(MIN_TRANSACTIONS, 1);
    assert_eq!(MAX_TRANSACTIONS, 20);
    assert_eq!(MAX_WAKE_UPS, 3);
}

#[test]
fn single_server_happy_path() {
    let (server, mut state) = servers(vec![group(None, None, 0, 1)]).remove(0);
    assert!(!server.should_prepare(&state, 10));

    let receipt =
        server.receive_client_transaction(&mut state, update(Vec::new(), vec![0xab]), false).unwrap();
    assert_eq!(receipt.answer, None);
    assert!(receipt.outbound.is_empty());
    assert_eq!(receipt.wait, None);
    assert_eq!(state.transaction_pool().count(0), 1);

    // Never committed: the first look of the prepare watcher triggers.
    assert!(!server.watch_commit_loop(&state, 1000));
    let fan_out = server.watch_trigger_prepare(&mut state, 1000).unwrap().unwrap();
    assert!(fan_out.is_empty());
    assert_eq!(state.run_state(), RunState::Prepare(0));
    assert_eq!(state.last_prepare_time(), Some(1000));
    assert_eq!(state.prepare_notify(), 0);
    assert!(matches!(server.watch_trigger_prepare(&mut state, 1500), Ok(None)));

    // The commit is due more than a second after the prepare.
    assert!(!server.watch_commit_loop(&state, 2000));
    assert!(server.watch_commit_loop(&state, 2001));
    let requests = server.commit_requests(&state);
    assert_eq!(requests.len(), 1);
    assert_eq!(requests[0].key, Vec::<u8>::new());
    assert_eq!(requests[0].value, Some(vec![0xab]));
    assert_eq!(requests[0].transaction_type, TransactionType::Update);

    let updates = server.trigger_commit(&mut state, Some(vec![0x11, 0x22]), 2001).unwrap();
    assert!(updates.is_empty());
    assert_eq!(state.current_epoch(), 1);
    assert_eq!(state.run_state(), RunState::Normal);
    assert_eq!(state.current_root(), &vec![0x11, 0x22]);
    assert_eq!(state.commit_notify(), 1);
    assert_eq!(state.last_commit_time(), Some(2001));
    assert!(server.commit_requests(&state).is_empty());
    assert!(!server.watch_commit_loop(&state, 9000));
}

#[test]
fn failed_commit_changes_nothing() {
    let (server, mut state) = servers(vec![group(None, None, 0, 1)]).remove(0);
    server.receive_client_transaction(&mut state, update(vec![1], vec![2]), false).unwrap();
    server.broadcast_prepare(&mut state, 5).unwrap();
    assert!(matches!(server.trigger_commit(&mut state, None, 3000), Err(ServerError::CommitFailure)));
    assert_eq!(state.current_epoch(), 0);
    assert_eq!(state.run_state(), RunState::Prepare(0));
    assert_eq!(state.last_commit_time(), None);
    assert_eq!(state.commit_notify(), 0);
    assert_eq!(server.commit_requests(&state).len(), 1);
    assert!(server.watch_commit_loop(&state, 3000));
}

#[test]
fn prepare_watcher_thresholds() {
    let (server, mut state) = servers(vec![group(None, None, 8, 1)]).remove(0);
    server.receive_client_transaction(&mut state, update(vec![0], vec![0]), false).unwrap();
    server.broadcast_prepare(&mut state, 100).unwrap();
    server.trigger_commit(&mut state, Some(vec![1]), 5000).unwrap();
    // Nothing pending: no prepare, however late.
    assert!(!server.should_prepare(&state, 100_000));
    server.receive_client_transaction(&mut state, update(vec![1], vec![0]), false).unwrap();
    // One pending: a prepare more than a second after the commit.
    assert!(!server.should_prepare(&state, 5000));
    assert!(!server.should_prepare(&state, 6000));
    assert!(server.should_prepare(&state, 6001));
    assert!(!server.should_prepare(&state, 4000));
    // Twenty pending: a prepare at once.
    for key in 2..20u8 {
        server.receive_client_transaction(&mut state, update(vec![key], vec![0]), false).unwrap();
        assert!(!server.should_prepare(&state, 5500));
    }
    server.receive_client_transaction(&mut state, update(vec![20], vec![0]), false).unwrap();
    assert_eq!(state.transaction_pool().count(1), 20);
    assert!(server.should_prepare(&state, 5500));
    // While preparing, no further prepare.
    server.broadcast_prepare(&mut state, 5500).unwrap();
    assert!(!server.should_prepare(&state, 100_000));
}

#[test]
fn duplicate_client_suppression() {
    let mut all = servers(vec![group(Some("AQ=="), Some(2), 8, 3)]);
    let (server, mut state) = all.remove(0);
    let first = server.receive_client_transaction(&mut state, update(vec![1], vec![2]), false).unwrap();
    assert_eq!(first.answer, None);
    assert_eq!(first.outbound.len(), 2);
    let second =
        server.receive_client_transaction(&mut state, update(vec![1], vec![2]), true).unwrap();
    assert_eq!(second.answer, Some(()));
    assert!(second.outbound.is_empty());
    assert_eq!(second.wait, None);
    assert_eq!(state.transaction_pool().count(0), 1);

    let (response, out) = server.client_transaction(&mut state, update(vec![1], vec![2])).unwrap();
    assert_eq!(response.status, TransactionResult::Duplicate);
    assert!(out.is_empty());
    let (response, out) = server.client_transaction(&mut state, update(vec![1], vec![3])).unwrap();
    assert_eq!(response.status, TransactionResult::Inserted);
    assert_eq!(out.len(), 2);
    let nothing = ClientTransactionRequest { transaction: None, auxiliary: None };
    assert!(matches!(
        server.client_transaction(&mut state, nothing),
        Err(ServerError::MissingField)
    ));
    assert_eq!(state.transaction_pool().count(0), 2);
}

#[test]
fn client_transaction_while_preparing_enters_the_next_epoch() {
    let (server, mut state) = servers(vec![group(None, None, 8, 1)]).remove(0);
    server.broadcast_prepare(&mut state, 1).unwrap();
    let receipt =
        server.receive_client_transaction(&mut state, update(vec![1], vec![2]), true).unwrap();
    assert_eq!(receipt.answer, None);
    assert_eq!(receipt.wait, Some(CommitWait { target_epoch: 1, wake_ups: 0 }));
    assert_eq!(state.transaction_pool().count(0), 0);
    assert_eq!(state.transaction_pool().count(1), 1);
    assert!(server.commit_requests(&state).is_empty());
}

#[test]
fn waiting_client_gives_up_after_three_wake_ups() {
    let mut wait = CommitWait { target_epoch: 4, wake_ups: 0 };
    assert_eq!(wait.observe(Some(3)), Ok(false));
    assert_eq!(wait.observe(Some(5)), Ok(false));
    assert_eq!(wait.wake_ups, 2);
    assert_eq!(wait.observe(Some(6)), Err(ServerError::CommitNotificationLost));
    let mut wait = CommitWait { target_epoch: 4, wake_ups: 0 };
    assert_eq!(wait.observe(Some(3)), Ok(false));
    assert_eq!(wait.observe(Some(4)), Ok(true));
    assert_eq!(wait.wake_ups, 1);
    let mut wait = CommitWait { target_epoch: 4, wake_ups: 2 };
    assert_eq!(wait.observe(Some(4)), Ok(true));
    let mut wait = CommitWait { target_epoch: 4, wake_ups: 0 };
    assert_eq!(wait.observe(None), Err(ServerError::CommitNotificationLost));
}

#[test]
fn peer_signature_round_trip() {
    let mut all = servers(vec![group(Some("AQ=="), Some(2), 8, 2)]);
    let (b, mut b_state) = all.remove(1);
    let (a, mut a_state) = all.remove(0);
    let receipt = a.receive_client_transaction(&mut a_state, update(vec![1], vec![2]), false).unwrap();
    assert_eq!(destinations(&receipt.outbound), vec!["http://127.0.0.1:8001"]);
    let echo = match &receipt.outbound[0].request {
        Request::PeerTransaction(r) => r.clone(),
        _ => unreachable!(),
    };
    assert_eq!(echo.server_id, "srv_0");
    assert_eq!(echo.epoch, Some(Epoch { epoch: 0 }));
    assert_eq!(echo.signature.len(), 64);
    assert_eq!(echo.auxiliary, None);
    assert_eq!(
        echo.signature,
        a.sign_transaction(echo.transaction.as_ref().unwrap()).unwrap()
    );

    assert_eq!(b.verify_peer_transaction(&echo), Ok(()));
    assert_eq!(b.receive_peer_transaction(&mut b_state, echo.clone()), Ok(None));
    assert_eq!(b_state.transaction_pool().count(0), 1);
    assert_eq!(b.receive_peer_transaction(&mut b_state, echo.clone()), Ok(Some(())));
    assert_eq!(b_state.transaction_pool().count(0), 1);
    assert_eq!(b.peer_transaction(&mut b_state, echo).unwrap().status, TransactionResult::Duplicate);
}

#[test]
fn peer_transaction_is_checked() {
    let mut all = servers(vec![group(Some("AQ=="), Some(2), 8, 2), group(None, None, 2, 1)]);
    let (outsider, mut outsider_state) = all.remove(2);
    let (b, mut b_state) = all.remove(1);
    let (a, mut a_state) = all.remove(0);
    let receipt = a.receive_client_transaction(&mut a_state, update(vec![1], vec![2]), false).unwrap();
    let echo = match &receipt.outbound[0].request {
        Request::PeerTransaction(r) => r.clone(),
        _ => unreachable!(),
    };

    let mut tampered = echo.clone();
    tampered.transaction.as_mut().unwrap().value = Some(vec![3]);
    assert_eq!(b.receive_peer_transaction(&mut b_state, tampered), Err(ServerError::SignatureInvalid));
    let mut cut = echo.clone();
    cut.signature.pop();
    assert_eq!(b.receive_peer_transaction(&mut b_state, cut), Err(ServerError::SignatureInvalid));
    let mut stranger = echo.clone();
    stranger.server_id = "srv_7".to_string();
    assert_eq!(b.receive_peer_transaction(&mut b_state, stranger), Err(ServerError::PeerUnknown));
    let mut nothing = echo.clone();
    nothing.transaction = None;
    assert_eq!(b.receive_peer_transaction(&mut b_state, nothing), Err(ServerError::MissingField));
    let mut no_epoch = echo.clone();
    no_epoch.epoch = None;
    assert_eq!(b.receive_peer_transaction(&mut b_state, no_epoch), Err(ServerError::MissingField));
    assert_eq!(b_state.transaction_pool().count(0), 0);
    // A server without parallel peers knows no peer to take a transaction from.
    assert_eq!(
        outsider.receive_peer_transaction(&mut outsider_state, echo.clone()),
        Err(ServerError::PeerUnknown)
    );
    // The source and the auxiliary bytes are not signed.
    let mut with_aux = echo;
    with_aux.auxiliary = Some(vec![9]);
    assert_eq!(b.receive_peer_transaction(&mut b_state, with_aux), Ok(None));
}

#[test]
fn prepare_infection() {
    let mut all = servers(vec![group(Some("AQ=="), Some(2), 8, 3)]);
    let (c, mut c_state) = all.remove(2);
    let (b, mut b_state) = all.remove(1);
    let (a, mut a_state) = all.remove(0);

    let out = a.broadcast_prepare(&mut a_state, 10).unwrap();
    assert_eq!(destinations(&out), vec!["http://127.0.0.1:8001", "http://127.0.0.1:8002"]);
    assert_eq!(a_state.run_state(), RunState::Prepare(0));
    let announcement = match &out[0].request {
        Request::PeerPrepare(r) => r.clone(),
        _ => unreachable!(),
    };
    assert_eq!(announcement.epoch, Some(Epoch { epoch: 0 }));
    assert_eq!(announcement.peer_identity.as_ref().unwrap().server_id, "srv_0");

    let out = b.peer_prepare(&mut b_state, announcement.clone(), 11).unwrap();
    assert_eq!(destinations(&out), vec!["http://127.0.0.1:8000", "http://127.0.0.1:8002"]);
    assert_eq!(b_state.run_state(), RunState::Prepare(0));
    assert_eq!(b_state.last_prepare_time(), Some(11));
    assert_eq!(b_state.peer_state(&ServerId("srv_0".to_string())), Some(RunState::Prepare(0)));
    assert_eq!(b_state.peer_state(&ServerId("srv_2".to_string())), Some(RunState::Normal));

    let out = c.receive_prepare(&mut c_state, 0, ServerId("srv_0".to_string()), 12).unwrap();
    assert_eq!(destinations(&out), vec!["http://127.0.0.1:8000", "http://127.0.0.1:8001"]);
    assert_eq!(c_state.run_state(), RunState::Prepare(0));

    // The echoes of B and C reach servers that prepare already.
    let out = a.receive_prepare(&mut a_state, 0, ServerId("srv_1".to_string()), 13).unwrap();
    assert!(out.is_empty());
    assert_eq!(a_state.last_prepare_time(), Some(10));
    assert_eq!(a_state.peer_state(&ServerId("srv_1".to_string())), Some(RunState::Prepare(0)));
    assert!(c.receive_prepare(&mut c_state, 0, ServerId("srv_1".to_string()), 14).unwrap().is_empty());

    for (server, state) in [(&a, &mut a_state), (&b, &mut b_state), (&c, &mut c_state)] {
        assert!(matches!(
            server.broadcast_prepare(state, 20),
            Err(ServerError::AlreadyPreparing)
        ));
        assert_eq!(state.run_state(), RunState::Prepare(0));
    }
}

#[test]
fn peer_prepare_needs_epoch_and_identity() {
    let (server, mut state) = servers(vec![group(None, None, 8, 1)]).remove(0);
    let no_epoch = PeerPrepareRequest {
        epoch: None,
        peer_identity: Some(ServerIdentity { server_id: "srv_1".to_string() }),
    };
    assert!(matches!(server.peer_prepare(&mut state, no_epoch, 1), Err(ServerError::MissingField)));
    let no_identity = PeerPrepareRequest { epoch: Some(Epoch { epoch: 0 }), peer_identity: None };
    assert!(matches!(
        server.peer_prepare(&mut state, no_identity, 1),
        Err(ServerError::MissingField)
    ));
    assert_eq!(state.run_state(), RunState::Normal);
    let no_epoch = PeerCommitRequest {
        peer_identity: Some(ServerIdentity { server_id: "srv_1".to_string() }),
        epoch: None,
        head: Vec::new(),
        signature: Vec::new(),
    };
    assert_eq!(server.peer_commit(&mut state, no_epoch), Err(ServerError::MissingField));
    let no_identity = PeerCommitRequest {
        peer_identity: None,
        epoch: Some(Epoch { epoch: 0 }),
        head: Vec::new(),
        signature: Vec::new(),
    };
    assert_eq!(server.peer_commit(&mut state, no_identity), Err(ServerError::MissingField));
}

#[test]
fn epoch_root_mismatch() {
    let (server, mut state) = servers(vec![group(None, None, 8, 1)]).remove(0);
    let head = vec![0xaa, 0xbb];
    let other_head = vec![0xaa, 0xbc];
    for _ in 0..5 {
        server.trigger_commit(&mut state, Some(other_head.clone()), 1).unwrap();
    }
    assert_eq!(state.current_epoch(), 5);
    let signature = PrivateKey::from(seed_of(3)).sign_root(&head).as_bytes();
    let from = ServerId("srv_3".to_string());
    assert_eq!(
        server.receive_signatures(&mut state, &from, 5, &head, &signature),
        Err(ServerError::RootMismatch)
    );
    assert_eq!(
        server.receive_signatures(&mut state, &from, 4, &other_head, &signature),
        Err(ServerError::StaleEpoch)
    );
    assert_eq!(
        server.receive_signatures(&mut state, &from, 6, &other_head, &signature),
        Err(ServerError::StaleEpoch)
    );
    assert_eq!(
        server.receive_signatures(&mut state, &from, 5, &other_head, &vec![0u8; 96]),
        Err(ServerError::SignatureInvalid)
    );
    assert!(state.multi_sig(5).is_none());
    assert_eq!(server.receive_signatures(&mut state, &from, 5, &other_head, &signature), Ok(()));
    assert_eq!(state.multi_sig(5).unwrap().signers(), 1);
}

#[test]
fn signatures_are_gathered_and_aggregated_once_for_each_signer() {
    let mut all = servers(vec![group(Some("AQ=="), Some(2), 8, 3)]);
    let (a, mut a_state) = all.remove(0);
    a.trigger_commit(&mut a_state, Some(vec![7, 7]), 1).unwrap();
    let root = vec![7u8, 7];

    let out = a.sign_and_broadcast(&mut a_state).unwrap();
    assert_eq!(destinations(&out), vec!["http://127.0.0.1:8001", "http://127.0.0.1:8002"]);
    let own = bls_signatures::PrivateKey::new(seed_of(0)).sign(&root);
    let commit = match &out[1].request {
        Request::PeerCommit(r) => r.clone(),
        _ => unreachable!(),
    };
    assert_eq!(commit.epoch, Some(Epoch { epoch: 1 }));
    assert_eq!(commit.head, root);
    assert_eq!(commit.signature, own.as_bytes());
    assert_eq!(commit.peer_identity.as_ref().unwrap().server_id, "srv_0");
    {
        let record = a_state.multi_sig(1).unwrap();
        assert_eq!(record.epoch(), 1);
        assert_eq!(record.root(), &root);
        assert_eq!(record.signers(), 1);
        assert_eq!(record.aggregate().as_bytes(), own.as_bytes());
    }

    let of_b = bls_signatures::PrivateKey::new(seed_of(1)).sign(&root);
    let from_b = PeerCommitRequest {
        peer_identity: Some(ServerIdentity { server_id: "srv_1".to_string() }),
        epoch: Some(Epoch { epoch: 1 }),
        head: root.clone(),
        signature: of_b.as_bytes(),
    };
    assert_eq!(a.peer_commit(&mut a_state, from_b.clone()), Ok(()));
    let expected = bls_signatures::aggregate(&[own, of_b]).unwrap().as_bytes();
    {
        let record = a_state.multi_sig(1).unwrap();
        assert_eq!(record.signers(), 2);
        assert_eq!(record.aggregate().as_bytes(), expected);
        let held = record.signature_of(&ServerId("srv_1".to_string())).unwrap();
        assert_eq!(held.as_bytes(), of_b.as_bytes());
        assert!(record.signature_of(&ServerId("srv_2".to_string())).is_none());
    }

    // A second signature of a signer is neither entered nor aggregated.
    assert_eq!(a.peer_commit(&mut a_state, from_b), Ok(()));
    a.sign_and_broadcast(&mut a_state).unwrap();
    let of_c = bls_signatures::PrivateKey::new(seed_of(2)).sign(&root);
    assert_eq!(
        a.receive_signatures(&mut a_state, &ServerId("srv_1".to_string()), 1, &root, &of_c.as_bytes()),
        Ok(())
    );
    let record = a_state.multi_sig(1).unwrap();
    assert_eq!(record.signers(), 2);
    assert_eq!(record.aggregate().as_bytes(), expected);
    assert_eq!(
        record.signature_of(&ServerId("srv_1".to_string())).unwrap().as_bytes(),
        of_b.as_bytes()
    );
    // Every signature held is one that its signer's key accepts on the root.
    for (i, id) in ["srv_0", "srv_1"].iter().enumerate() {
        let key = PrivateKey::from(seed_of(i)).public_key();
        let held = record.signature_of(&ServerId(id.to_string())).unwrap();
        assert!(key.verify_root(record.root(), held));
    }
}

#[test]
fn superior_propagation() {
    // P owns the root with keys of 2 bits; S owns the prefix 01.
    let mut all = servers(vec![group(None, None, 2, 1), group(Some("AQ=="), Some(2), 2, 1)]);
    let (s, mut s_state) = all.remove(1);
    let root = vec![0xde, 0xad, 0xbe, 0xef];
    s.broadcast_prepare(&mut s_state, 1).unwrap();
    let out = s.trigger_commit(&mut s_state, Some(root.clone()), 2).unwrap();
    assert_eq!(destinations(&out), vec!["http://127.0.0.1:8000"]);
    match &out[0].request {
        Request::ClientTransaction(r) => {
            let t = r.transaction.as_ref().unwrap();
            assert_eq!(t.key, vec![0x01]);
            assert_eq!(t.value, Some(root.clone()));
            assert_eq!(t.transaction_type, TransactionType::Update);
            assert_eq!(r.auxiliary, None);
        }
        _ => unreachable!(),
    }
    assert_eq!(destinations(&s.trigger_epoch(&root)), vec!["http://127.0.0.1:8000"]);
    assert_eq!(s_state.current_epoch(), 1);

    // P takes the update as a client's transaction under the key 01.
    let (p, mut p_state) = all.remove(0);
    let request = match &out[0].request {
        Request::ClientTransaction(r) => r.clone(),
        _ => unreachable!(),
    };
    assert_eq!(p.receive_client_transaction(&mut p_state, request, false).unwrap().answer, None);
    assert_eq!(p.commit_requests(&p_state)[0].key, vec![0x01]);
}

#[test]
fn epoch_only_grows() {
    let (server, mut state) = servers(vec![group(None, None, 8, 1)]).remove(0);
    let mut last = state.current_epoch();
    for round in 0..4u64 {
        server.receive_client_transaction(&mut state, update(vec![round as u8], vec![1]), false).unwrap();
        assert_eq!(state.current_epoch(), last);
        server.broadcast_prepare(&mut state, round).unwrap();
        assert_eq!(state.current_epoch(), last);
        server.sign_and_broadcast(&mut state).unwrap();
        assert_eq!(state.current_epoch(), last);
        assert!(server.trigger_commit(&mut state, None, round).is_err());
        assert_eq!(state.current_epoch(), last);
        server.trigger_commit(&mut state, Some(vec![round as u8]), round).unwrap();
        assert_eq!(state.current_epoch(), last + 1);
        last = state.current_epoch();
    }
    state.purge_before(3);
    assert_eq!(state.current_epoch(), 4);
    assert_eq!(state.transaction_pool().count(2), 0);
    assert_eq!(state.transaction_pool().count(3), 1);
    // The record of each epoch is over the root with which the epoch was entered.
    assert_eq!(state.multi_sig(0).unwrap().root(), &Vec::<u8>::new());
    for epoch in 1..4u64 {
        assert_eq!(state.multi_sig(epoch).unwrap().root(), &vec![epoch as u8 - 1]);
    }
    assert!(state.multi_sig(4).is_none());
}

#[test]
fn fresh_state() {
    let mut state = MerkleVerseServerState::new();
    assert_eq!(state.current_epoch(), 0);
    assert_eq!(state.run_state(), RunState::Normal);
    assert_eq!(RunState::default(), RunState::Normal);
    assert_eq!(state.peer_state(&ServerId("a".to_string())), None);
    assert_eq!(state.add_peer(ServerId("a".to_string())), Ok(()));
    assert_eq!(state.peer_state(&ServerId("a".to_string())), Some(RunState::Normal));
    assert_eq!(state.commit_notify(), 0);
    assert_eq!(state.prepare_notify(), 0);
}
