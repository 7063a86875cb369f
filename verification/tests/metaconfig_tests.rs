use base64::Engine;
use merkleverse::error::ServerError;
use merkleverse::metaconfig::{MetaConfig, PeerGroupConfig, INNER_BEGIN, OUTER_BEGIN};

fn group(prefix: Option<&str>, prefix_length: Option<u32>, length: u32, count: u32) -> PeerGroupConfig {
    PeerGroupConfig {
        prefix: prefix.map(|p| p.to_string()),
        prefix_length,
        length,
        count,
        epoch_interval: 500,
    }
}

#[test]
fn generated_configurations_follow_the_groups() {
    let meta = MetaConfig {
        peer_groups: vec![group(None, None, 2, 1), group(Some("AQ=="), Some(2), 8, 2)],
    };
    assert_eq!(meta.server_count(), Some(3));
    let seeds = vec![[0u8; 32], [1u8; 32], [2u8; 32]];
    let configs = meta.serv_configs_with(&seeds).unwrap();
    assert_eq!(configs.len(), 3);

    let first = &configs[0].server;
    assert_eq!(first.server_config.id, "srv_0");
    assert_eq!(first.server_config.connection_string, "127.0.0.1:8000");
    assert_eq!(first.outer_addr, "127.0.0.1:8000");
    assert_eq!(first.outer_port, 8000);
    assert_eq!(first.inner_port, 6000);
    assert_eq!(first.epoch_interval, 500);
    assert_eq!(first.server_config.prefix, None);
    assert_eq!(first.server_config.prefix_length, None);
    assert_eq!(first.server_config.length, 2);
    assert_eq!(first.private_key, "AAAAAAAAAAAAAAAAAAAAAAAAAAAAAAAAAAAAAAAAAAA=");

    let third = &configs[2].server;
    assert_eq!(third.server_config.id, "srv_2");
    assert_eq!(third.server_config.connection_string, "127.0.0.1:8002");
    assert_eq!(third.outer_port, OUTER_BEGIN + 2);
    assert_eq!(third.inner_port, INNER_BEGIN + 2);
    assert_eq!(third.server_config.prefix, Some("AQ==".to_string()));
    assert_eq!(third.server_config.prefix_length, Some(2));
    assert_eq!(third.server_config.length, 8);
    let engine = base64::engine::general_purpose::STANDARD;
    assert_eq!(third.private_key, engine.encode([2u8; 32]));
    let bls = bls_signatures::PrivateKey::new([2u8; 32]).public_key();
    assert_eq!(
        third.server_config.bls_pub_key,
        engine.encode(bls_signatures::Serialize::as_bytes(&bls))
    );
    let dalek = ed25519_dalek::SigningKey::from_bytes(&[2u8; 32]).verifying_key();
    assert_eq!(third.server_config.dalek_pub_key, engine.encode(dalek.to_bytes()));
}

#[test]
fn each_generated_server_has_all_others_as_peers() {
    let meta = MetaConfig { peer_groups: vec![group(Some("Ag=="), Some(3), 4, 3)] };
    let seeds = vec![[5u8; 32], [6u8; 32], [7u8; 32]];
    let configs = meta.serv_configs_with(&seeds).unwrap();
    for (i, config) in configs.iter().enumerate() {
        let peers = config.peers.as_ref().unwrap();
        let ids: Vec<&str> = peers.iter().map(|p| p.id.as_str()).collect();
        let expected: Vec<String> =
            (0..3).filter(|j| *j != i).map(|j| format!("srv_{}", j)).collect();
        assert_eq!(ids, expected);
        for peer in peers {
            let of_peer = configs.iter().find(|c| c.server.server_config.id == peer.id).unwrap();
            assert_eq!(peer.bls_pub_key, of_peer.server.server_config.bls_pub_key);
            assert_eq!(peer.dalek_pub_key, of_peer.server.server_config.dalek_pub_key);
            assert_eq!(peer.connection_string, of_peer.server.server_config.connection_string);
        }
    }
}

#[test]
fn seeds_must_be_as_many_as_the_servers() {
    let meta = MetaConfig { peer_groups: vec![group(None, None, 2, 2)] };
    assert!(matches!(meta.serv_configs_with(&vec![[0u8; 32]]), Err(ServerError::ConfigError)));
    assert!(matches!(
        meta.serv_configs_with(&vec![[0u8; 32], [1u8; 32], [2u8; 32]]),
        Err(ServerError::ConfigError)
    ));
    let none = MetaConfig { peer_groups: Vec::new() };
    assert_eq!(none.server_count(), Some(0));
    assert_eq!(none.serv_configs_with(&Vec::new()).unwrap().len(), 0);
    assert_eq!(none.to_serv_configs().unwrap().len(), 0);
}

#[test]
fn more_servers_than_ports_are_refused() {
    let meta = MetaConfig { peer_groups: vec![group(None, None, 2, 57537)] };
    assert_eq!(meta.server_count(), None);
    assert!(matches!(meta.to_serv_configs(), Err(ServerError::ConfigError)));
    assert!(matches!(meta.serv_configs_with(&Vec::new()), Err(ServerError::ConfigError)));
    let huge = MetaConfig {
        peer_groups: vec![group(None, None, 2, u32::MAX), group(None, None, 2, u32::MAX)],
    };
    assert_eq!(huge.server_count(), None);
    let full = MetaConfig { peer_groups: vec![group(None, None, 2, 57536)] };
    assert_eq!(full.server_count(), Some(57536));
}

#[test]
fn random_seeds_give_keys_that_differ() {
    let meta = MetaConfig { peer_groups: vec![group(None, None, 2, 2)] };
    let configs = meta.to_serv_configs().unwrap();
    assert_eq!(configs.len(), 2);
    let engine = base64::engine::general_purpose::STANDARD;
    let first = engine.decode(&configs[0].server.private_key).unwrap();
    let second = engine.decode(&configs[1].server.private_key).unwrap();
    assert_eq!(first.len(), 32);
    assert_eq!(second.len(), 32);
    assert_ne!(first, second);
    assert_ne!(first, vec![0u8; 32]);
    assert_eq!(configs[0].server.server_config.id, "srv_0");
    assert_eq!(configs[1].server.server_config.id, "srv_1");
}
