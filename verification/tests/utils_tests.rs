use base64::Engine;
use merkleverse::config::{prefix_bin, ServerConfig};
use merkleverse::error::ServerError;
use merkleverse::server::Index;
use merkleverse::utils::{b64_to_loc, binary_string, decimal, get_bit, pack_bits};

#[test]
fn tst_decoding() {
    let base = "Ag==";
    assert_eq!(binary_string(&b64_to_loc(base, 8).unwrap(), 8), "00000010");
    assert_eq!(binary_string(&b64_to_loc(base, 3).unwrap(), 3), "010");
    let base_2 = "ATs=";
    assert_eq!(binary_string(&b64_to_loc(base_2, 9).unwrap(), 9), "100111011");
}

#[test]
fn location_is_left_padded_to_the_bytes_of_the_length() {
    assert_eq!(b64_to_loc("Ag==", 8).unwrap(), vec![0x02]);
    assert_eq!(b64_to_loc("Ag==", 9).unwrap(), vec![0x00, 0x02]);
    assert_eq!(b64_to_loc("Ag==", 24).unwrap(), vec![0x00, 0x00, 0x02]);
    assert_eq!(b64_to_loc("", 0).unwrap(), Vec::<u8>::new());
    assert_eq!(b64_to_loc("", 3).unwrap(), vec![0x00]);
}

#[test]
fn location_longer_than_the_length_is_refused() {
    assert_eq!(b64_to_loc("ATs=", 8), Err(ServerError::ConfigError));
    assert_eq!(b64_to_loc("ATs=", 2), Err(ServerError::ConfigError));
    assert_eq!(b64_to_loc("Ag==", 0), Err(ServerError::ConfigError));
    assert!(b64_to_loc("ATs=", 9).is_ok());
}

#[test]
fn text_that_is_no_base64_is_refused() {
    assert_eq!(b64_to_loc("not base64!", 64), Err(ServerError::ConfigError));
    assert_eq!(b64_to_loc("Ag=", 8), Err(ServerError::ConfigError));
    assert_eq!(b64_to_loc("Ah==", 8), Err(ServerError::ConfigError));
}

#[test]
fn binary_string_fills_up_with_zeros_and_cuts_from_the_left() {
    assert_eq!(binary_string(&[0xff], 12), "000011111111");
    assert_eq!(binary_string(&[0xa5, 0x0f], 16), "1010010100001111");
    assert_eq!(binary_string(&[0xa5, 0x0f], 5), "01111");
    assert_eq!(binary_string(&[], 0), "");
    assert_eq!(binary_string(&[], 3), "000");
    assert_eq!(binary_string(&[0x80], 8), "10000000");
}

#[test]
fn bits_are_counted_from_the_most_significant() {
    assert!(get_bit(&[0x80], 8, 0));
    assert!(!get_bit(&[0x80], 8, 7));
    assert!(get_bit(&[0x01], 2, 1));
    assert!(!get_bit(&[0x01], 2, 0));
    assert!(!get_bit(&[0x01], 16, 3));
    assert!(get_bit(&[0x01], 16, 15));
}

#[test]
fn packing_keeps_the_bits_behind_the_skipped_ones() {
    // 0110 without its first two bits is 10.
    assert_eq!(pack_bits(&[0x06], 4, 2), vec![0x02]);
    // 01 without nothing is 01.
    assert_eq!(pack_bits(&[0x01], 2, 0), vec![0x01]);
    // Nothing is left of a string without all its bits.
    assert_eq!(pack_bits(&[0x01], 2, 2), Vec::<u8>::new());
    // 1 0011 1011 without its first bit is 0011 1011.
    assert_eq!(pack_bits(&[0x01, 0x3b], 9, 1), vec![0x3b]);
    // Twelve bits of 0xabc without the first four: 0xbc.
    assert_eq!(pack_bits(&[0x0a, 0xbc], 12, 4), vec![0xbc]);
    // Sixteen bits without the first three keep thirteen, in two bytes.
    assert_eq!(pack_bits(&[0xff, 0xff], 16, 3), vec![0x1f, 0xff]);
}

#[test]
fn decimal_renders_numbers() {
    assert_eq!(decimal(0), "0");
    assert_eq!(decimal(7), "7");
    assert_eq!(decimal(10), "10");
    assert_eq!(decimal(8000), "8000");
    assert_eq!(decimal(65535), "65535");
    assert_eq!(decimal(u64::MAX), "18446744073709551615");
}

#[test]
fn index_from_base64_and_back() {
    let index = Index::from_b64("ATs=", 9).unwrap();
    assert_eq!(index.index, vec![0x01, 0x3b]);
    assert_eq!(index.length, 9);
    assert_eq!(index.to_binstring().unwrap(), "100111011");
    // Encoding the decoded bytes gives the text back.
    assert_eq!(base64::engine::general_purpose::STANDARD.encode(&index.index), "ATs=");
    // With padding, the text comes back from the bytes behind the padding.
    let padded = Index::from_b64("Ag==", 24).unwrap();
    assert_eq!(padded.index, vec![0x00, 0x00, 0x02]);
    assert_eq!(base64::engine::general_purpose::STANDARD.encode(&padded.index[2..]), "Ag==");
    assert_eq!(Index::from_b64("ATs=", 8).map(|i| i.index), Err(ServerError::ConfigError));
}

#[test]
fn index_of_a_key_has_its_number_of_bytes_as_length() {
    let index = Index::from(vec![0xab, 0xcd, 0xef]);
    assert_eq!(index.index, vec![0xab, 0xcd, 0xef]);
    assert_eq!(index.length, 3);
    let empty = Index::default();
    assert_eq!(empty.index, Vec::<u8>::new());
    assert_eq!(empty.length, 0);
    assert_eq!(empty.to_binstring().unwrap(), "");
}

#[test]
fn index_prefixes_and_order() {
    let root = Index::default();
    let zero_one = Index::from_b64("AQ==", 2).unwrap();
    let zero_one_one = Index::from_b64("Aw==", 3).unwrap();
    let one_zero = Index::from_b64("Ag==", 2).unwrap();
    assert!(root.is_prefix_of(&zero_one));
    assert!(zero_one.is_prefix_of(&zero_one_one));
    assert!(zero_one.is_prefix_of(&zero_one));
    assert!(!zero_one_one.is_prefix_of(&zero_one));
    assert!(!one_zero.is_prefix_of(&zero_one_one));
    assert!(zero_one.same_bits(&Index { index: vec![0x00, 0x01], length: 2 }));
    assert!(!zero_one.same(&Index { index: vec![0x00, 0x01], length: 2 }));
    assert!(zero_one.same(&Index { index: vec![0x01], length: 2 }));
    assert!(root.sorts_before(&zero_one));
    assert!(zero_one.sorts_before(&zero_one_one));
    assert!(zero_one_one.sorts_before(&one_zero));
    assert!(!one_zero.sorts_before(&zero_one));
    assert!(!zero_one.sorts_before(&zero_one));
    assert!(zero_one.bit(1));
    assert!(!zero_one.bit(0));
}

#[test]
fn prefix_bin_of_a_configuration() {
    let mut config = ServerConfig {
        connection_string: "127.0.0.1:8000".to_string(),
        id: "srv_0".to_string(),
        prefix: Some("Ag==".to_string()),
        prefix_length: Some(3),
        length: 8,
        bls_pub_key: String::new(),
        dalek_pub_key: String::new(),
    };
    assert_eq!(config.prefix_bin(), Ok("010".to_string()));
    assert_eq!(prefix_bin(&config.prefix, &config.prefix_length), Ok("010".to_string()));
    config.prefix_length = None;
    assert_eq!(config.prefix_bin(), Ok(String::new()));
    config.prefix = None;
    config.prefix_length = Some(3);
    assert_eq!(config.prefix_bin(), Ok(String::new()));
    config.prefix = Some("ATs=".to_string());
    config.prefix_length = Some(8);
    assert_eq!(config.prefix_bin(), Err(ServerError::ConfigError));
}

#[test]
fn errors_have_messages() {
    assert_eq!(ServerError::AlreadyPreparing.message(), "server is already in prepare state");
    assert_eq!(
        ServerError::CommitNotificationLost.message(),
        "failed to receive commit notification"
    );
    assert_ne!(ServerError::StaleEpoch.message(), ServerError::RootMismatch.message());
}

#[test]
fn accepted_base64_is_the_encoding_of_its_bytes() {
    let engine = base64::engine::general_purpose::STANDARD;
    let alphabet = ['A', 'Q', 'g', 'w', '/', '+', '9', '=', 'B', 'f'];
    let mut texts: Vec<String> = vec![String::new()];
    let mut accepted = 0;
    for _ in 0..4 {
        let mut longer = Vec::new();
        for text in &texts {
            for c in alphabet {
                let mut next = text.clone();
                next.push(c);
                longer.push(next);
            }
        }
        for text in &longer {
            match b64_to_loc(text, 64) {
                Ok(bytes) => {
                    accepted += 1;
                    let decoded = engine.decode(text).unwrap();
                    assert_eq!(engine.encode(&decoded), *text);
                    assert_eq!(bytes.len(), 8);
                    assert_eq!(&bytes[8 - decoded.len()..], &decoded[..]);
                    assert!(bytes[..8 - decoded.len()].iter().all(|b| *b == 0));
                }
                Err(e) => {
                    assert_eq!(e, ServerError::ConfigError);
                    assert!(engine.decode(text).is_err());
                }
            }
        }
        texts = longer;
    }
    assert!(accepted > 100);
}
