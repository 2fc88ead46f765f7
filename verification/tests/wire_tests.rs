//! Wire-codec tests: canonical encoding, whitespace-tolerant decoding, and
//! the round trips the library proves.

use artemis::client::Chain;
use artemis::client::Client;
use artemis::errors::RpcError;
use artemis::primitives::Address;
use artemis::primitives::TxHash;
use artemis::types::BundleRequest;
use artemis::types::BundleTx;
use artemis::types::PrivacyHint;
use artemis::types::ProtocolVersion;
use artemis::wire::decode_bundle;
use artemis::wire::decode_bundles;
use artemis::wire::decode_privacy_hints;
use artemis::wire::encode_bundle;
use artemis::wire::encode_bundles;
use artemis::wire::encode_privacy_hints;
use artemis::wire::encode_send_bundle_request;

fn addr(last: u8) -> Address {
    let mut bytes = vec![0u8; 20];
    bytes[19] = last;
    Address::from_bytes(bytes)
}

fn hash(fill: u8) -> TxHash {
    TxHash::from_bytes(vec![fill; 32])
}

#[test]
fn can_deserialize() {
    let str = r#"
        [{
            "version": "v0.1",
            "inclusion": {
                "block": "0x1"
            },
            "body": [{
                "tx": "0x02f86b0180843b9aca00852ecc889a0082520894c87037874aed04e51c29f582394217a0a2b89d808080c080a0a463985c616dd8ee17d7ef9112af4e6e06a27b071525b42182fe7b0b5c8b4925a00af5ca177ffef2ff28449292505d41be578bebb77110dfc09361d2fb56998260",
                "canRevert": false
            }]
        }]
        "#;
    let res: Option<Vec<BundleRequest>> = decode_bundles(&str.as_bytes().to_vec());
    assert!(res.is_some());
}

#[test]
fn deserialized_fields_are_read_back() {
    let str = r#"
        [{
            "version": "v0.1",
            "inclusion": {
                "block": "0x1"
            },
            "body": [{
                "tx": "0x02f8",
                "canRevert": false
            }]
        }]
        "#;
    let bundles = decode_bundles(&str.as_bytes().to_vec()).unwrap();
    assert_eq!(bundles.len(), 1);
    let b = &bundles[0];
    assert_eq!(b.version, ProtocolVersion::V0_1);
    assert_eq!(b.inclusion.block, 1);
    assert_eq!(b.inclusion.max_block, None);
    assert_eq!(b.body.len(), 1);
    match &b.body[0] {
        BundleTx::Tx { tx, can_revert } => {
            assert_eq!(tx, &vec![0x02u8, 0xf8]);
            assert!(!can_revert);
        }
        other => panic!("unexpected body element: {:?}", other),
    }
    assert!(b.validity.is_none());
    assert!(b.privacy.is_none());
}

#[test]
fn hash_body_element_deserializes_to_reference() {
    let str = r#"[{"version":"beta-1","inclusion":{"block":"0x1"},"body":[{"hash":"0x1111111111111111111111111111111111111111111111111111111111111111"}]}]"#;
    let bundles = decode_bundles(&str.as_bytes().to_vec()).unwrap();
    assert_eq!(bundles.len(), 1);
    match &bundles[0].body[0] {
        BundleTx::TxHash { hash } => assert_eq!(hash.bytes, vec![0x11u8; 32]),
        other => panic!("unexpected body element: {:?}", other),
    }
}

#[test]
fn minimal_bundle_encodes_canonically() {
    let b = BundleRequest {
        version: ProtocolVersion::V0_1,
        inclusion: artemis::types::Inclusion { block: 1, max_block: None },
        body: Vec::new(),
        validity: None,
        privacy: None,
    };
    let out = encode_bundle(&b);
    assert_eq!(
        String::from_utf8(out).unwrap(),
        r#"{"version":"v0.1","inclusion":{"block":"0x1"},"body":[]}"#
    );
}

#[test]
fn simple_bundle_round_trips() {
    let txs = vec![
        BundleTx::TxHash { hash: hash(0xab) },
        BundleTx::Tx { tx: vec![0x02, 0xf8, 0x6b], can_revert: false },
    ];
    let b = BundleRequest::make_simple(100, txs);
    let out = encode_bundle(&b);
    let back = decode_bundle(&out).unwrap();
    assert_eq!(back, b);
}

#[test]
fn bundle_list_round_trips() {
    let b1 = BundleRequest::make_simple(7, vec![BundleTx::TxHash { hash: hash(0x01) }]);
    let b2 = BundleRequest::make_simple(
        8,
        vec![BundleTx::Tx { tx: vec![0xde, 0xad], can_revert: true }],
    );
    let bs = vec![b1, b2];
    let out = encode_bundles(&bs);
    let back = decode_bundles(&out).unwrap();
    assert_eq!(back, bs);
}

#[test]
fn make_simple_window_and_defaults() {
    let b = BundleRequest::make_simple(100, Vec::new());
    assert_eq!(b.version, ProtocolVersion::Beta1);
    assert_eq!(b.inclusion.block, 100);
    assert_eq!(b.inclusion.max_block, Some(130));
    let validity = b.validity.unwrap();
    assert!(validity.refund.is_none());
    let config = validity.refund_config.unwrap();
    assert_eq!(config.len(), 1);
    assert_eq!(config[0].address, addr(0x40));
    assert_eq!(config[0].percent, 30);
    let privacy = b.privacy.unwrap();
    assert_eq!(privacy.hints, Some(PrivacyHint::default()));
    let builders = privacy.builders.unwrap();
    assert_eq!(builders.len(), 5);
    assert_eq!(
        builders[0].bytes,
        vec![
            0x1fu8, 0x90, 0x90, 0xaa, 0xe2, 0x8b, 0x8a, 0x3d, 0xce, 0xad, 0xf2, 0x81, 0xb0,
            0xf1, 0x28, 0x28, 0xe6, 0x76, 0xc3, 0x26,
        ]
    );
}

#[test]
fn make_simple_saturates_near_the_last_block() {
    let b = BundleRequest::make_simple(u64::MAX - 10, Vec::new());
    assert_eq!(b.inclusion.max_block, Some(u64::MAX));
}

#[test]
fn privacy_hints_serialize_in_fixed_order() {
    let h = PrivacyHint::default().with_calldata().with_tx_hash();
    let out = encode_privacy_hints(&h);
    assert_eq!(String::from_utf8(out).unwrap(), r#"["calldata","tx_hash"]"#);
}

#[test]
fn privacy_hints_round_trip() {
    let h = PrivacyHint::default().with_calldata().with_tx_hash();
    let out = encode_privacy_hints(&h);
    assert_eq!(decode_privacy_hints(&out), Some(h));
    let all = PrivacyHint::default()
        .with_calldata()
        .with_contract_address()
        .with_logs()
        .with_function_selector()
        .with_hash()
        .with_tx_hash();
    let out = encode_privacy_hints(&all);
    assert_eq!(
        String::from_utf8(out.clone()).unwrap(),
        r#"["calldata","contract_address","logs","function_selector","hash","tx_hash"]"#
    );
    assert_eq!(decode_privacy_hints(&out), Some(all));
    let none = PrivacyHint::default();
    let out = encode_privacy_hints(&none);
    assert_eq!(String::from_utf8(out.clone()).unwrap(), "[]");
    assert_eq!(decode_privacy_hints(&out), Some(none));
}

#[test]
fn unknown_privacy_hint_is_rejected() {
    let bad = br#"["calldata","nonsense"]"#.to_vec();
    assert_eq!(decode_privacy_hints(&bad), None);
}

#[test]
fn full_bundle_with_all_parts_round_trips() {
    let txs = vec![BundleTx::TxHash { hash: hash(0x22) }];
    let b = BundleRequest::new(5, Some(9), ProtocolVersion::Beta1, txs);
    let out = encode_bundle(&b);
    let back = decode_bundle(&out).unwrap();
    assert_eq!(back, b);
}

#[test]
fn send_bundle_request_is_framed() {
    let b = BundleRequest {
        version: ProtocolVersion::Beta1,
        inclusion: artemis::types::Inclusion { block: 2, max_block: None },
        body: Vec::new(),
        validity: None,
        privacy: None,
    };
    let out = encode_send_bundle_request(&b, 7);
    assert_eq!(
        String::from_utf8(out).unwrap(),
        r#"{"jsonrpc":"2.0","id":7,"method":"mev_sendBundle","params":[{"version":"beta-1","inclusion":{"block":"0x2"},"body":[]}]}"#
    );
}

#[test]
fn send_bundle_response_parses() {
    let client = Client::from_url("https://relay.flashbots.net/", "flashbots");
    let good = format!(
        r#"{{"jsonrpc":"2.0","id":1,"result":{{"bundleHash":"0x{}"}}}}"#,
        "22".repeat(32)
    );
    let resp = client
        .parse_send_bundle_response(&good.as_bytes().to_vec())
        .unwrap();
    assert_eq!(resp.bundle_hash, hash(0x22));
    let bad = br#"{"jsonrpc":"2.0","id":1,"error":{"code":-32000}}"#.to_vec();
    assert_eq!(
        client.parse_send_bundle_response(&bad),
        Err(RpcError::ProtocolDecode)
    );
}

#[test]
fn client_urls_follow_the_chain() {
    let mainnet = Client::new(Chain::Mainnet, "https://rpc.beaverbuild.org/", "beaverbuild");
    assert_eq!(mainnet.url, "https://rpc.beaverbuild.org/");
    assert_eq!(mainnet.client_name, "beaverbuild");
    let goerli = Client::new(Chain::Goerli, "https://rpc.beaverbuild.org/", "beaverbuild");
    assert_eq!(goerli.url, "https://relay-goerli.flashbots.net:443");
}

#[test]
fn garbage_is_rejected() {
    assert!(decode_bundle(&b"not json".to_vec()).is_none());
    assert!(decode_bundles(&b"[{}]".to_vec()).is_none());
    assert!(decode_bundle(&b"".to_vec()).is_none());
    // Trailing bytes after the value are refused too.
    let b = BundleRequest::make_simple(1, Vec::new());
    let mut out = encode_bundle(&b);
    out.push(b'x');
    assert!(decode_bundle(&out).is_none());
}
