//! Wire-level tests: the envelope's tagged byte fields, the varint
//! framing, and the rule that any tampering with a sealed envelope's
//! payload or signature makes verification fail.

use anchor_network::envelope::Error;
use anchor_network::node_info::parse_envelope;
use anchor_network::varint::decode_varint;
use anchor_network::handshake::EnvelopeCodec;
use anchor_network::Envelope;
use anchor_network::NodeInfo;
use libp2p_identity::Keypair;

#[test]
fn envelope_encodes_to_the_exact_tagged_bytes() {
    let env = Envelope {
        public_key: vec![1, 2],
        payload_type: vec![3],
        payload: vec![4, 5, 6],
        signature: vec![7],
    };
    let data = env.encode_to_vec().unwrap();
    // field 1 key 0x0A, field 2 key 0x12, field 3 key 0x1A, field 5 key 0x2A
    assert_eq!(
        data,
        vec![0x0A, 2, 1, 2, 0x12, 1, 3, 0x1A, 3, 4, 5, 6, 0x2A, 1, 7]
    );
    let back = Envelope::decode_from_slice(&data).unwrap();
    assert_eq!(back.public_key, vec![1, 2]);
    assert_eq!(back.payload_type, vec![3]);
    assert_eq!(back.payload, vec![4, 5, 6]);
    assert_eq!(back.signature, vec![7]);
}

#[test]
fn empty_fields_are_not_written_and_decode_as_empty() {
    let env = Envelope {
        public_key: Vec::new(),
        payload_type: Vec::new(),
        payload: vec![9],
        signature: Vec::new(),
    };
    let data = env.encode_to_vec().unwrap();
    assert_eq!(data, vec![0x1A, 1, 9]);
    let back = Envelope::decode_from_slice(&data).unwrap();
    assert!(back.public_key.is_empty());
    assert_eq!(back.payload, vec![9]);
}

#[test]
fn unknown_fields_are_skipped() {
    // field 4 (reserved) as a length-delimited field, then field 3
    let data = vec![0x22, 2, 0xAA, 0xBB, 0x1A, 1, 5];
    let env = Envelope::decode_from_slice(&data).unwrap();
    assert_eq!(env.payload, vec![5]);
    // a varint-typed unknown field is skipped too
    let data2 = vec![0x20, 0x96, 0x01, 0x1A, 1, 6];
    let env2 = Envelope::decode_from_slice(&data2).unwrap();
    assert_eq!(env2.payload, vec![6]);
}

#[test]
fn truncated_envelopes_are_rejected() {
    let data = vec![0x1A, 5, 1, 2];
    assert_eq!(Envelope::decode_from_slice(&data).unwrap_err(), Error::Decode);
    let data2 = vec![0x1A];
    assert_eq!(Envelope::decode_from_slice(&data2).unwrap_err(), Error::Decode);
}

#[test]
fn varint_round_trips_and_rejects_padding() {
    let mut buf = Vec::new();
    anchor_network::varint::encode_varint_u64(300, &mut buf);
    assert_eq!(buf, vec![0xAC, 0x02]);
    assert_eq!(decode_varint(&buf, 0), Some((300, 2)));
    // a trailing zero group is not the canonical encoding
    assert_eq!(decode_varint(&[0xAC, 0x80, 0x00], 0), None);
    // the largest value fits
    let mut big = Vec::new();
    anchor_network::varint::encode_varint_u64(u64::MAX, &mut big);
    assert_eq!(decode_varint(&big, 0), Some((u64::MAX, big.len())));
    // one beyond it does not
    let over = vec![0x80, 0x80, 0x80, 0x80, 0x80, 0x80, 0x80, 0x80, 0x80, 0x02];
    assert_eq!(decode_varint(&over, 0), None);
}

#[test]
fn sealed_envelope_verifies_and_any_bit_flip_fails() {
    let node_info = NodeInfo::new("flipnet".to_string(), None);
    let keypair = Keypair::generate_ed25519();
    let env = node_info.seal(&keypair).expect("seal should succeed");
    let data = env.encode_to_vec().unwrap();
    parse_envelope(&data).expect("the untouched envelope verifies");

    // flipping any single bit of the payload must break verification
    for byte in 0..env.payload.len() {
        for bit in 0..8 {
            let mut tampered = Envelope {
                public_key: env.public_key.clone(),
                payload_type: env.payload_type.clone(),
                payload: env.payload.clone(),
                signature: env.signature.clone(),
            };
            tampered.payload[byte] ^= 1 << bit;
            let bytes = tampered.encode_to_vec().unwrap();
            assert!(
                parse_envelope(&bytes).is_err(),
                "payload bit flip went unnoticed"
            );
        }
    }

    // flipping any single bit of the signature must break verification
    for byte in 0..env.signature.len() {
        for bit in 0..8 {
            let mut tampered = Envelope {
                public_key: env.public_key.clone(),
                payload_type: env.payload_type.clone(),
                payload: env.payload.clone(),
                signature: env.signature.clone(),
            };
            tampered.signature[byte] ^= 1 << bit;
            let bytes = tampered.encode_to_vec().unwrap();
            assert!(
                parse_envelope(&bytes).is_err(),
                "signature bit flip went unnoticed"
            );
        }
    }
}

#[test]
fn malformed_public_key_is_a_key_decoding_failure() {
    let env = Envelope {
        public_key: vec![0xDE, 0xAD],
        payload_type: vec![1],
        payload: vec![2],
        signature: vec![3],
    };
    let data = env.encode_to_vec().unwrap();
    assert_eq!(
        parse_envelope(&data).unwrap_err(),
        Error::PublicKeyDecoding
    );
}

#[test]
fn wrong_signature_is_a_verification_failure() {
    let node_info = NodeInfo::new("signet".to_string(), None);
    let keypair = Keypair::generate_ed25519();
    let mut env = node_info.seal(&keypair).expect("seal should succeed");
    env.signature = vec![0; env.signature.len()];
    let data = env.encode_to_vec().unwrap();
    assert_eq!(
        parse_envelope(&data).unwrap_err(),
        Error::SignatureVerification
    );
}

#[test]
fn codec_reads_what_it_wrote() {
    let node_info = NodeInfo::new("codecnet".to_string(), None);
    let keypair = Keypair::generate_ed25519();
    let env = node_info.seal(&keypair).expect("seal should succeed");
    let wire = EnvelopeCodec::write_request(&env).unwrap();
    let req = EnvelopeCodec::read_request(&wire).expect("request decodes");
    assert_eq!(req.payload, env.payload);
    let wire2 = EnvelopeCodec::write_response(&env).unwrap();
    let resp = EnvelopeCodec::read_response(&wire2).expect("response decodes and verifies");
    assert_eq!(resp.signature, env.signature);
}
