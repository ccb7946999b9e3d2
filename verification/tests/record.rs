//! Identity-record tests: sealing and consuming, the wire form, and the
//! two- and three-entry compatibility of the entries list.

use anchor_network::node_info::parse_envelope;
use anchor_network::node_info::Error;
use anchor_network::NodeInfo;
use anchor_network::NodeMetadata;
use libp2p_identity::Keypair;

#[test]
fn node_info_test_node_info_seal_consume() {
    let node_info = NodeInfo::new(
        "holesky".to_string(),
        Some(NodeMetadata {
            node_version: "geth/x".to_string(),
            execution_node: "geth/x".to_string(),
            consensus_node: "prysm/x".to_string(),
            subnets: "00000000000000000000000000000000".to_string(),
        }),
    );

    let envelope = node_info
        .seal(&Keypair::generate_secp256k1())
        .expect("Seal failed");

    let data = envelope.encode_to_vec().unwrap();

    let parsed_env = parse_envelope(&data).expect("Consume failed");
    let mut parsed_node_info = NodeInfo::default();
    parsed_node_info
        .unmarshal(&parsed_env.payload)
        .expect("TODO: panic message");

    assert_eq!(node_info, parsed_node_info);
}

#[test]
fn types_test_node_info_seal_consume() {
    let node_info = NodeInfo::new(
        "holesky".to_string(),
        Some(NodeMetadata {
            node_version: "geth/x".to_string(),
            execution_node: "geth/x".to_string(),
            consensus_node: "prysm/x".to_string(),
            subnets: "00000000000000000000000000000000".to_string(),
        }),
    );

    let envelope = node_info
        .seal(&Keypair::generate_secp256k1())
        .expect("Seal failed");

    let data = envelope.encode_to_vec().unwrap();

    let parsed_env = parse_envelope(&data).expect("Consume failed");
    let mut parsed_node_info = NodeInfo::default();
    parsed_node_info
        .unmarshal(&parsed_env.payload)
        .expect("Consume failed");

    assert_eq!(node_info, parsed_node_info);
}

#[test]
fn node_info_test_node_info_marshal_unmarshal() {
    // Serialized entries written by an older producer
    // (note the "Subnets":"ffffffffffffffffffffffffffffffff")
    let old_serialized_data = br#"{"Entries":["", "testnet", "{\"NodeVersion\":\"v0.1.12\",\"ExecutionNode\":\"geth/x\",\"ConsensusNode\":\"prysm/x\",\"Subnets\":\"ffffffffffffffffffffffffffffffff\"}"]}"#;

    let current_data = NodeInfo {
        network_id: "testnet".to_string(),
        metadata: Some(NodeMetadata {
            node_version: "v0.1.12".into(),
            execution_node: "geth/x".into(),
            consensus_node: "prysm/x".into(),
            subnets: "ffffffffffffffffffffffffffffffff".into(),
        }),
    };

    let data = current_data.marshal().expect("marshal_record should succeed");

    let mut parsed_rec = NodeInfo::default();
    parsed_rec
        .unmarshal(&data)
        .expect("unmarshal_record should succeed");

    parsed_rec
        .unmarshal(old_serialized_data)
        .expect("unmarshal old data should succeed");

    assert_eq!(current_data, parsed_rec);
}

#[test]
fn types_test_node_info_marshal_unmarshal() {
    let old_serialized_data = br#"{"Entries":["", "testnet", "{\"NodeVersion\":\"v0.1.12\",\"ExecutionNode\":\"geth/x\",\"ConsensusNode\":\"prysm/x\",\"Subnets\":\"ffffffffffffffffffffffffffffffff\"}"]}"#;

    let current_data = NodeInfo {
        network_id: "testnet".to_string(),
        metadata: Some(NodeMetadata {
            node_version: "v0.1.12".into(),
            execution_node: "geth/x".into(),
            consensus_node: "prysm/x".into(),
            subnets: "ffffffffffffffffffffffffffffffff".into(),
        }),
    };

    let data = current_data.marshal().expect("marshal_record should succeed");

    let mut parsed_rec = NodeInfo::default();
    parsed_rec
        .unmarshal(&data)
        .expect("unmarshal_record should succeed");

    parsed_rec
        .unmarshal(old_serialized_data)
        .expect("unmarshal old data should succeed");

    assert_eq!(current_data, parsed_rec);
}

#[test]
fn two_entry_list_unmarshals_without_metadata() {
    let mut rec = NodeInfo::default();
    rec.unmarshal(br#"{"Entries":["", "testnet"]}"#)
        .expect("two entries should unmarshal");
    assert_eq!(rec.network_id, "testnet");
    assert!(rec.metadata.is_none());
}

#[test]
fn two_entry_list_keeps_prior_metadata() {
    let mut rec = NodeInfo::new(
        "old".to_string(),
        Some(NodeMetadata {
            node_version: "v".into(),
            execution_node: "e".into(),
            consensus_node: "c".into(),
            subnets: "00".into(),
        }),
    );
    rec.unmarshal(br#"{"Entries":["", "newnet"]}"#)
        .expect("two entries should unmarshal");
    assert_eq!(rec.network_id, "newnet");
    // a producer without metadata does not erase what the reader knew
    assert!(rec.metadata.is_some());
}

#[test]
fn three_entry_list_unmarshals_with_metadata() {
    let mut rec = NodeInfo::default();
    rec.unmarshal(
        br#"{"Entries":["", "testnet", "{\"NodeVersion\":\"v1\",\"ExecutionNode\":\"e\",\"ConsensusNode\":\"c\",\"Subnets\":\"00\"}"]}"#,
    )
    .expect("three entries should unmarshal");
    assert_eq!(rec.network_id, "testnet");
    let meta = rec.metadata.expect("metadata should be set");
    assert_eq!(meta.node_version, "v1");
    assert_eq!(meta.execution_node, "e");
    assert_eq!(meta.consensus_node, "c");
    assert_eq!(meta.subnets, "00");
}

#[test]
fn malformed_metadata_leaves_record_unmodified() {
    let mut rec = NodeInfo::new("before".to_string(), None);
    let err = rec
        .unmarshal(br#"{"Entries":["", "testnet", "{not json"]}"#)
        .expect_err("malformed metadata must fail");
    assert_eq!(err, Error::Serialization);
    assert_eq!(rec.network_id, "before");
    assert!(rec.metadata.is_none());
}

#[test]
fn short_entries_list_is_a_validation_failure() {
    let mut rec = NodeInfo::default();
    let err = rec
        .unmarshal(br#"{"Entries":[""]}"#)
        .expect_err("one entry must fail");
    assert_eq!(err, Error::Validation);
}

#[test]
fn garbage_bytes_are_a_serialization_failure() {
    let mut rec = NodeInfo::default();
    let err = rec.unmarshal(b"not json at all").expect_err("must fail");
    assert_eq!(err, Error::Serialization);
}

#[test]
fn invalid_utf8_in_network_id_is_rejected() {
    // a raw 0xFF byte inside the network-id string: well-formed for the
    // reader, but not UTF-8 text
    let mut payload = Vec::new();
    payload.extend_from_slice(br#"{"Entries":["", ""#);
    payload.push(0xFF);
    payload.extend_from_slice(br#""]}"#);
    let mut rec = NodeInfo::default();
    let err = rec.unmarshal(&payload).expect_err("must fail");
    assert_eq!(err, Error::Serialization);
}

#[test]
fn escapes_round_trip_through_the_wire_form() {
    let rec = NodeInfo::new("net \"quoted\" \\ back\nline\ttab".to_string(), None);
    let data = rec.marshal().expect("marshal should succeed");
    let mut back = NodeInfo::default();
    back.unmarshal(&data).expect("unmarshal should succeed");
    assert_eq!(rec, back);
}

#[test]
fn unicode_escapes_are_read() {
    let mut rec = NodeInfo::default();
    rec.unmarshal(br#"{"Entries":["", "\u0041\u0042\u003c\ud83d\ude00"]}"#)
        .expect("unicode escapes should unmarshal");
    assert_eq!(rec.network_id, "AB<\u{1F600}");
}

#[test]
fn whitespace_and_reordered_members_are_read() {
    let mut rec = NodeInfo::default();
    rec.unmarshal(
        b"  { \"Entries\" : [ \"\" , \"spacednet\" , \"{ \\\"Subnets\\\": \\\"01\\\", \\\"ConsensusNode\\\": \\\"c\\\", \\\"ExecutionNode\\\": \\\"e\\\", \\\"NodeVersion\\\": \\\"v\\\" }\" ] }  ",
    )
    .expect("whitespace and member order should not matter");
    assert_eq!(rec.network_id, "spacednet");
    assert_eq!(rec.metadata.unwrap().subnets, "01");
}

#[test]
fn marshalled_record_is_json_an_outside_reader_accepts() {
    let rec = NodeInfo::new(
        "crosscheck".to_string(),
        Some(NodeMetadata {
            node_version: "v".into(),
            execution_node: "e".into(),
            consensus_node: "c".into(),
            subnets: "ff".into(),
        }),
    );
    let data = rec.marshal().expect("marshal should succeed");
    let v: serde_json::Value = serde_json::from_slice(&data).expect("outside reader should accept");
    let entries = v.get("Entries").and_then(|e| e.as_array()).expect("Entries array");
    assert_eq!(entries.len(), 3);
    assert_eq!(entries[0].as_str(), Some(""));
    assert_eq!(entries[1].as_str(), Some("crosscheck"));
    let meta: serde_json::Value =
        serde_json::from_str(entries[2].as_str().unwrap()).expect("metadata is JSON text");
    assert_eq!(meta.get("NodeVersion").and_then(|x| x.as_str()), Some("v"));
    assert_eq!(meta.get("Subnets").and_then(|x| x.as_str()), Some("ff"));
}
