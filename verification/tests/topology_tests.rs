use merkleverse::config::{LocalServerConfig, ServerConfig, ServersConfig};
use merkleverse::error::ServerError;
use merkleverse::metaconfig::{MetaConfig, PeerGroupConfig};
use merkleverse::server::synchronization::RunState;
use merkleverse::server::{Index, MerkleVerseServer, PeerServer, ServerCluster, ServerId};

fn group(prefix: Option<&str>, prefix_length: Option<u32>, length: u32, count: u32) -> PeerGroupConfig {
    PeerGroupConfig {
        prefix: prefix.map(|p| p.to_string()),
        prefix_length,
        length,
        count,
        epoch_interval: 500,
    }
}

fn deployment(groups: Vec<PeerGroupConfig>) -> Vec<ServersConfig> {
    let meta = MetaConfig { peer_groups: groups };
    let count = meta.server_count().unwrap();
    let seeds: Vec<[u8; 32]> = (0..count).map(|i| [i as u8 + 1; 32]).collect();
    meta.serv_configs_with(&seeds).unwrap()
}

fn ids(cluster: Option<&ServerCluster>) -> Vec<String> {
    match cluster {
        Some(c) => (0..c.len()).map(|i| c.server(i).id.0.clone()).collect(),
        None => Vec::new(),
    }
}

fn take(configs: &mut Vec<ServersConfig>, i: usize) -> ServersConfig {
    let config = &configs[i];
    ServersConfig {
        server: config.server.clone(),
        peers: config.peers.as_ref().map(|p| p.iter().map(|c| c.clone()).collect()),
    }
}

#[test]
fn server_without_peers_has_no_cluster() {
    let mut configs = deployment(vec![group(None, None, 0, 1)]);
    let (server, state) = MerkleVerseServer::from_cluster_config(take(&mut configs, 0)).unwrap();
    assert!(server.parallel().is_none());
    assert!(server.superior().is_none());
    assert_eq!(server.id.0, "srv_0");
    assert_eq!(server.connection_string, "127.0.0.1:8000");
    assert_eq!(server.inner_dst(), "http://127.0.0.1:6000");
    assert_eq!(server.prefix().length, 0);
    assert_eq!(server.length(), 0);
    assert_eq!(server.epoch_interval(), 500);
    assert_eq!(state.current_epoch(), 0);
    assert_eq!(state.run_state(), RunState::Normal);
    assert!(state.current_root().is_empty());
    assert_eq!(state.last_commit_time(), None);
    assert_eq!(state.last_prepare_time(), None);
    // A configuration without a list of peers is one without peers.
    let mut config = take(&mut configs, 0);
    config.peers = None;
    let (server, _) = MerkleVerseServer::from_cluster_config(config).unwrap();
    assert!(server.parallel().is_none());
}

#[test]
fn parallel_peers_share_prefix_and_length() {
    // srv_0, srv_1: prefix 01, keys of 8 bits; srv_2: prefix 01, keys of 4 bits;
    // srv_3: prefix 10, keys of 8 bits.
    let mut configs = deployment(vec![
        group(Some("AQ=="), Some(2), 8, 2),
        group(Some("AQ=="), Some(2), 4, 1),
        group(Some("Ag=="), Some(2), 8, 1),
    ]);
    let (server, state) = MerkleVerseServer::from_cluster_config(take(&mut configs, 0)).unwrap();
    assert_eq!(ids(server.parallel()), vec!["srv_1"]);
    assert!(server.superior().is_none());
    let peer = server.parallel().unwrap().server(0);
    assert_eq!(peer.connection_string, "http://127.0.0.1:8001");
    assert_eq!(peer.prefix.to_binstring().unwrap(), "01");
    assert_eq!(peer.length, 8);
    // Every peer is known to the state, whether it is addressed or not.
    for id in ["srv_1", "srv_2", "srv_3"] {
        assert_eq!(state.peer_state(&ServerId(id.to_string())), Some(RunState::Normal));
    }
    assert_eq!(state.peer_state(&ServerId("srv_0".to_string())), None);
    assert_eq!(state.peer_state(&ServerId("srv_9".to_string())), None);

    let (other, _) = MerkleVerseServer::from_cluster_config(take(&mut configs, 3)).unwrap();
    assert!(other.parallel().is_none());
    let (alone, _) = MerkleVerseServer::from_cluster_config(take(&mut configs, 2)).unwrap();
    assert!(alone.parallel().is_none());
}

#[test]
fn superior_peers_own_a_proper_prefix() {
    // srv_0: root, keys of 2 bits; srv_1: prefix 0, keys of 2 bits; srv_2, srv_3:
    // prefix 01, keys of 2 bits; srv_4: prefix 1, keys of 2 bits; srv_5: root,
    // keys of 3 bits.
    let mut configs = deployment(vec![
        group(None, None, 2, 1),
        group(Some("AA=="), Some(1), 2, 1),
        group(Some("AQ=="), Some(2), 2, 2),
        group(Some("AQ=="), Some(1), 2, 1),
        group(None, None, 3, 1),
    ]);
    let (server, _) = MerkleVerseServer::from_cluster_config(take(&mut configs, 2)).unwrap();
    // In the order of their prefixes: the root before 0.
    assert_eq!(ids(server.superior()), vec!["srv_0", "srv_1"]);
    assert_eq!(ids(server.parallel()), vec!["srv_3"]);
    assert_eq!(server.superior().unwrap().server(0).connection_string, "http://127.0.0.1:8000");

    let (top, _) = MerkleVerseServer::from_cluster_config(take(&mut configs, 0)).unwrap();
    assert!(top.superior().is_none());
    assert!(top.parallel().is_none());
}

#[test]
fn clusters_are_sorted_by_prefix_and_keep_the_given_order_within() {
    // Two superiors with the same (empty) prefix are given behind one with the
    // prefix 0: sorted, they come first, in the order given.
    let mut configs = deployment(vec![
        group(Some("AQ=="), Some(2), 2, 1),
        group(Some("AA=="), Some(1), 2, 1),
        group(None, None, 2, 2),
    ]);
    let (server, _) = MerkleVerseServer::from_cluster_config(take(&mut configs, 0)).unwrap();
    assert_eq!(ids(server.superior()), vec!["srv_2", "srv_3", "srv_1"]);
}

#[test]
fn relative_index_strips_the_prefix_of_the_superior() {
    let mut configs = deployment(vec![
        group(None, None, 2, 1),
        group(Some("AA=="), Some(1), 2, 1),
        group(Some("AQ=="), Some(2), 2, 1),
    ]);
    let (server, _) = MerkleVerseServer::from_cluster_config(take(&mut configs, 2)).unwrap();
    let superiors = server.superior().unwrap();
    let from_root = server.relative_index(Some(superiors.server(0))).unwrap();
    assert_eq!(from_root.index, vec![0x01]);
    assert_eq!(from_root.length, 2);
    assert_eq!(from_root.to_binstring().unwrap(), "01");
    let from_zero = server.relative_index(Some(superiors.server(1))).unwrap();
    assert_eq!(from_zero.index, vec![0x01]);
    assert_eq!(from_zero.length, 1);
    assert_eq!(from_zero.to_binstring().unwrap(), "1");
    let own = server.relative_index(None).unwrap();
    assert_eq!(own.index, vec![0x01]);
    assert_eq!(own.length, 2);
    // A peer whose prefix does not begin the server's is no place to look from.
    let stranger = PeerServer {
        id: ServerId("x".to_string()),
        connection_string: String::new(),
        prefix: Index::from_b64("Ag==", 2).unwrap(),
        length: 2,
        public_key: superiors.server(0).public_key.clone(),
    };
    assert!(matches!(server.relative_index(Some(&stranger)), Err(ServerError::ConfigError)));
}

#[test]
fn two_peers_of_one_name_are_refused() {
    let mut configs = deployment(vec![group(None, None, 2, 3)]);
    let mut config = take(&mut configs, 0);
    let peers = config.peers.as_mut().unwrap();
    peers[1].id = peers[0].id.clone();
    assert!(matches!(
        MerkleVerseServer::from_cluster_config(config),
        Err(ServerError::ConfigError)
    ));
}

#[test]
fn malformed_records_are_refused() {
    let mut configs = deployment(vec![group(Some("AQ=="), Some(2), 2, 2)]);

    let mut config = take(&mut configs, 0);
    config.peers.as_mut().unwrap()[0].prefix_length = None;
    assert!(matches!(MerkleVerseServer::from_cluster_config(config), Err(ServerError::ConfigError)));

    let mut config = take(&mut configs, 0);
    config.peers.as_mut().unwrap()[0].prefix = Some("AQI=".to_string());
    assert!(matches!(MerkleVerseServer::from_cluster_config(config), Err(ServerError::ConfigError)));

    let mut config = take(&mut configs, 0);
    config.peers.as_mut().unwrap()[0].bls_pub_key = "AAAA".to_string();
    assert!(matches!(MerkleVerseServer::from_cluster_config(config), Err(ServerError::ConfigError)));

    let mut config = take(&mut configs, 0);
    config.peers.as_mut().unwrap()[0].dalek_pub_key = "!".to_string();
    assert!(matches!(MerkleVerseServer::from_cluster_config(config), Err(ServerError::ConfigError)));

    let mut config = take(&mut configs, 0);
    config.server.private_key = "AAAA".to_string();
    assert!(matches!(MerkleVerseServer::from_cluster_config(config), Err(ServerError::ConfigError)));

    let mut config = take(&mut configs, 0);
    config.server.server_config.prefix = Some("%%".to_string());
    assert!(matches!(MerkleVerseServer::from_cluster_config(config), Err(ServerError::ConfigError)));

    // A prefix length without a prefix is the empty prefix.
    let mut config = take(&mut configs, 0);
    config.server.server_config.prefix = None;
    let (server, _) = MerkleVerseServer::from_cluster_config(config).unwrap();
    assert_eq!(server.prefix().length, 0);
    assert!(server.parallel().is_none());
}

#[test]
fn peer_and_server_of_single_records() {
    let configs = deployment(vec![group(Some("ATs="), Some(9), 7, 1)]);
    let local: &LocalServerConfig = &configs[0].server;
    let record: &ServerConfig = &local.server_config;
    let peer = PeerServer::from_config(record).unwrap();
    assert_eq!(peer.id.0, "srv_0");
    assert_eq!(peer.connection_string, "127.0.0.1:8000");
    assert_eq!(peer.prefix.index, vec![0x01, 0x3b]);
    assert_eq!(peer.prefix.length, 9);
    assert_eq!(peer.length, 7);
    let server = MerkleVerseServer::from_config(local).unwrap();
    assert_eq!(server.prefix().index, vec![0x01, 0x3b]);
    assert_eq!(server.public_key().bls_bytes(), peer.public_key.bls_bytes());
    assert_eq!(server.public_key().dalek_bytes(), peer.public_key.dalek_bytes());
    assert_eq!(server.get_server_information().server_id, "srv_0");
    assert_eq!(server.get_server_information().server_name, "Outer Merkle Verse Server");
    assert_eq!(server.server_identity().server_id, "srv_0");
}

#[test]
fn cluster_holds_each_name_once() {
    let configs = deployment(vec![group(None, None, 2, 2)]);
    let first = PeerServer::from_config(&configs[0].server.server_config).unwrap();
    let second = PeerServer::from_config(&configs[1].server.server_config).unwrap();
    let mut cluster = ServerCluster::new();
    assert_eq!(cluster.len(), 0);
    cluster.insert(first.clone());
    cluster.insert(second.clone());
    let mut moved = first.clone();
    moved.connection_string = "elsewhere".to_string();
    cluster.insert(moved);
    assert_eq!(cluster.len(), 2);
    assert_eq!(cluster.server(0).connection_string, "elsewhere");
    assert_eq!(cluster.get_server(&ServerId("srv_1".to_string())).unwrap().id.0, "srv_1");
    assert!(cluster.get_server(&ServerId("srv_2".to_string())).is_none());
    let copy = cluster.clone();
    assert_eq!(copy.len(), 2);

    let built = ServerCluster::from(vec![first.clone(), second, first]);
    assert_eq!(built.len(), 2);
    assert_eq!(built.server(0).connection_string, "http://127.0.0.1:8000");
    assert_eq!(built.server(1).id.0, "srv_1");
}
