//! Behavior of the codec on concrete values: round trips, exact payload
//! bytes, and one input for every error kind.

use protocol::{
    send_msg_announcetx, send_msg_getblocks, send_msg_getheaders, send_msg_subscribe,
    BlockHeaderResponse, BlockResponse, DecodeError, HandlerSpec, HandlerSpecs, Handshake,
    HeaderHash, MsgType, ProtocolMagic, TxId, Version,
};

#[test]
fn handler_spec_round_trip_samples() {
    for v in [0u16, 1, 23, 24, 255, 256, 0x5e, 0xabc, 0xffff] {
        let spec = HandlerSpec::new(v);
        let mut bytes: Vec<u8> = Vec::new();
        spec.serialize(&mut bytes);
        let (back, used) = HandlerSpec::deserialize(bytes.as_slice(), 0).unwrap();
        assert_eq!(back, spec);
        assert_eq!(used, bytes.len());
    }
}

#[test]
fn handler_spec_exact_bytes() {
    let mut bytes: Vec<u8> = Vec::new();
    HandlerSpec::new(5).serialize(&mut bytes);
    assert_eq!(bytes.as_slice(), &[0x82, 0x00, 0xd8, 0x18, 0x41, 0x05]);

    let mut bytes2: Vec<u8> = Vec::new();
    HandlerSpec::new(0x5e).serialize(&mut bytes2);
    assert_eq!(bytes2.as_slice(), &[0x82, 0x00, 0xd8, 0x18, 0x42, 0x18, 0x5e]);
}

#[test]
fn handler_spec_invalid_discriminant() {
    // [1, tag(24, bytes(uint(5)))]
    let bytes: &[u8] = &[0x82, 0x01, 0xd8, 0x18, 0x41, 0x05];
    let r = HandlerSpec::deserialize(bytes, 0);
    assert_eq!(r, Err(DecodeError::InvalidDiscriminant { expected: 0, actual: 1 }));
}

#[test]
fn handler_spec_invalid_tag() {
    // [0, tag(25, bytes(uint(5)))]
    let bytes: &[u8] = &[0x82, 0x00, 0xd8, 0x19, 0x41, 0x05];
    let r = HandlerSpec::deserialize(bytes, 0);
    assert_eq!(r, Err(DecodeError::InvalidTag { expected: 24, actual: 25 }));
}

#[test]
fn handler_spec_arity_mismatch() {
    // [0]: one element where two are demanded.
    let bytes: &[u8] = &[0x81, 0x00];
    let r = HandlerSpec::deserialize(bytes, 0);
    assert_eq!(r, Err(DecodeError::ArityMismatch { expected: 2, actual: 1 }));
}

#[test]
fn handler_spec_truncated() {
    let bytes: &[u8] = &[0x82, 0x00, 0xd8];
    let r = HandlerSpec::deserialize(bytes, 0);
    assert_eq!(r, Err(DecodeError::MalformedEncoding));
}

#[test]
fn handler_spec_ignores_trailing_bytes() {
    let bytes: &[u8] = &[0x82, 0x00, 0xd8, 0x18, 0x41, 0x05, 0xaa, 0xbb];
    let (back, used) = HandlerSpec::deserialize(bytes, 0).unwrap();
    assert_eq!(back, HandlerSpec::new(5));
    assert_eq!(used, 6);
}

#[test]
fn handler_specs_round_trip_any_order() {
    let mut table = HandlerSpecs::new();
    assert!(table.insert(0x30, HandlerSpec::new(7)));
    assert!(table.insert(0x01, HandlerSpec::new(2)));
    assert!(table.insert(0x18, HandlerSpec::new(3)));
    // A repeated code is refused and leaves the table unchanged.
    assert!(!table.insert(0x18, HandlerSpec::new(9)));

    let mut bytes: Vec<u8> = Vec::new();
    table.serialize(&mut bytes);
    let (back, used) = HandlerSpecs::deserialize(bytes.as_slice(), 0).unwrap();
    assert_eq!(back, table);
    assert_eq!(used, bytes.len());
}

#[test]
fn handler_specs_serialized_keys_ascend() {
    let mut table = HandlerSpecs::new();
    assert!(table.insert(0x18, HandlerSpec::new(3)));
    assert!(table.insert(0x01, HandlerSpec::new(2)));
    let mut bytes: Vec<u8> = Vec::new();
    table.serialize(&mut bytes);
    // map(2), key 1, [0, tag(24, bytes(uint(2)))], key 24, [0, ... uint(3)]
    assert_eq!(
        bytes.as_slice(),
        &[
            0xa2, 0x01, 0x82, 0x00, 0xd8, 0x18, 0x41, 0x02, 0x18, 0x18, 0x82, 0x00, 0xd8, 0x18,
            0x41, 0x03,
        ],
    );
    assert_eq!(table.len(), 2);
    assert_eq!(table.entry(0), (0x01, HandlerSpec::new(2)));
    assert_eq!(table.entry(1), (0x18, HandlerSpec::new(3)));
}

#[test]
fn handler_specs_rejects_repeated_key() {
    // {1: spec(2), 1: spec(3)} on the wire.
    let bytes: &[u8] = &[
        0xa2, 0x01, 0x82, 0x00, 0xd8, 0x18, 0x41, 0x02, 0x01, 0x82, 0x00, 0xd8, 0x18, 0x41, 0x03,
    ];
    let r = HandlerSpecs::deserialize(bytes, 0);
    assert_eq!(r, Err(DecodeError::MalformedEncoding));
}

#[test]
fn handler_specs_accepts_unsorted_wire_order() {
    // {24: spec(3), 1: spec(2)} on the wire, descending.
    let bytes: &[u8] = &[
        0xa2, 0x18, 0x18, 0x82, 0x00, 0xd8, 0x18, 0x41, 0x03, 0x01, 0x82, 0x00, 0xd8, 0x18, 0x41,
        0x02,
    ];
    let (table, _) = HandlerSpecs::deserialize(bytes, 0).unwrap();
    assert_eq!(table.entry(0), (0x01, HandlerSpec::new(2)));
    assert_eq!(table.entry(1), (0x18, HandlerSpec::new(3)));
}

#[test]
fn empty_table_round_trip() {
    let table = HandlerSpecs::new();
    let mut bytes: Vec<u8> = Vec::new();
    table.serialize(&mut bytes);
    assert_eq!(bytes.as_slice(), &[0xa0]);
    let (back, used) = HandlerSpecs::deserialize(bytes.as_slice(), 0).unwrap();
    assert_eq!(back, table);
    assert_eq!(used, 1);
}

#[test]
fn block_header_response_empty_list() {
    // [0, []]
    let bytes: &[u8] = &[0x82, 0x00, 0x80];
    let r = BlockHeaderResponse::deserialize(bytes).unwrap();
    assert_eq!(r, BlockHeaderResponse::Headers(Vec::new()));
}

#[test]
fn handshake_round_trip() {
    let hs = Handshake::default();
    let bytes = protocol::send_handshake(&hs);
    let (back, used) = Handshake::deserialize(bytes.as_slice(), 0).unwrap();
    assert_eq!(back, hs);
    assert_eq!(used, bytes.len());
}

#[test]
fn handshake_custom_round_trip() {
    let mut ins = HandlerSpecs::new();
    assert!(ins.insert(4, HandlerSpec::new(5)));
    let outs = HandlerSpecs::new();
    let hs = Handshake::new(ProtocolMagic(0xdead), Version::new(1, 2, 3), ins, outs);
    let bytes = protocol::send_handshake(&hs);
    let (back, _) = Handshake::deserialize(bytes.as_slice(), 0).unwrap();
    assert_eq!(back, hs);
}

#[test]
fn handshake_arity_mismatch() {
    // A three-element sequence where four are demanded.
    let bytes: &[u8] = &[0x83, 0x00, 0x00, 0x00];
    let r = Handshake::deserialize(bytes, 0);
    assert_eq!(r, Err(DecodeError::ArityMismatch { expected: 4, actual: 3 }));
}

#[test]
fn subscribe_payloads() {
    let (code, payload) = send_msg_subscribe(true);
    assert_eq!(code, 0x0d);
    assert_eq!(payload.as_slice(), &[0x18, 0x2b]);

    let (code, payload) = send_msg_subscribe(false);
    assert_eq!(code, 0x0d);
    assert_eq!(payload.as_slice(), &[0x18, 0x2a]);
}

#[test]
fn msg_type_codes() {
    assert_eq!(MsgType::MsgGetHeaders.code(), 0x04);
    assert_eq!(MsgType::MsgHeaders.code(), 0x05);
    assert_eq!(MsgType::MsgGetBlocks.code(), 0x06);
    assert_eq!(MsgType::MsgSubscribe.code(), 0x0d);
    assert_eq!(MsgType::MsgAnnounceTx.code(), 0x25);
}

#[test]
fn getheaders_payload_bytes() {
    let from = HeaderHash::new(vec![0xab; 32]);
    let (code, payload) = send_msg_getheaders(&[from], &None);
    assert_eq!(code, 0x04);
    let mut expected: Vec<u8> = vec![0x82, 0x9f, 0x58, 0x20];
    expected.extend_from_slice(&[0xab; 32]);
    expected.push(0xff);
    expected.push(0x80);
    assert_eq!(payload, expected);
}

#[test]
fn getheaders_payload_with_to_hash() {
    let from = HeaderHash::new(vec![0x01; 32]);
    let to = HeaderHash::new(vec![0x02; 32]);
    let (code, payload) = send_msg_getheaders(&[from], &Some(to));
    assert_eq!(code, 0x04);
    let mut expected: Vec<u8> = vec![0x82, 0x9f, 0x58, 0x20];
    expected.extend_from_slice(&[0x01; 32]);
    expected.push(0xff);
    expected.push(0x81);
    expected.push(0x58);
    expected.push(0x20);
    expected.extend_from_slice(&[0x02; 32]);
    assert_eq!(payload, expected);
}

#[test]
fn getblocks_payload_bytes() {
    let from = HeaderHash::new(vec![0x01; 32]);
    let to = HeaderHash::new(vec![0x02; 32]);
    let (code, payload) = send_msg_getblocks(&from, &to);
    assert_eq!(code, 0x06);
    let mut expected: Vec<u8> = vec![0x82, 0x58, 0x20];
    expected.extend_from_slice(&[0x01; 32]);
    expected.push(0x58);
    expected.push(0x20);
    expected.extend_from_slice(&[0x02; 32]);
    assert_eq!(payload, expected);
}

#[test]
fn announcetx_payload_bytes() {
    let txid = TxId::new(vec![0x07; 32]);
    let (code, payload) = send_msg_announcetx(&txid);
    assert_eq!(code, 0x25);
    let mut expected: Vec<u8> = vec![0x82, 0x00, 0x58, 0x20];
    expected.extend_from_slice(&[0x07; 32]);
    assert_eq!(payload, expected);
}

#[test]
fn block_header_response_unknown_variant() {
    let bytes: &[u8] = &[0x82, 0x02, 0x00];
    let r = BlockHeaderResponse::deserialize(bytes);
    assert_eq!(r, Err(DecodeError::UnknownVariant(2)));
}

#[test]
fn block_header_response_error_text() {
    // [1, "abc"]
    let bytes: &[u8] = &[0x82, 0x01, 0x63, 0x61, 0x62, 0x63];
    let r = BlockHeaderResponse::deserialize(bytes).unwrap();
    assert_eq!(r, BlockHeaderResponse::Fail(String::from("abc")));
}

#[test]
fn block_header_response_invalid_text() {
    // [1, text whose bytes are not UTF-8]
    let bytes: &[u8] = &[0x82, 0x01, 0x62, 0xff, 0xfe];
    let r = BlockHeaderResponse::deserialize(bytes);
    assert_eq!(r, Err(DecodeError::MalformedEncoding));
}

#[test]
fn block_header_response_definite_list() {
    // [0, [uint(7), uint(8)]]: two one-byte headers in a definite array.
    let bytes: &[u8] = &[0x82, 0x00, 0x82, 0x07, 0x08];
    let r = BlockHeaderResponse::deserialize(bytes).unwrap();
    match r {
        BlockHeaderResponse::Headers(hs) => {
            assert_eq!(hs.len(), 2);
            assert_eq!(hs[0].as_bytes().as_slice(), &[0x07]);
            assert_eq!(hs[1].as_bytes().as_slice(), &[0x08]);
        }
        BlockHeaderResponse::Fail(e) => panic!("unexpected failure: {}", e),
    }
}

#[test]
fn block_response_unknown_variant() {
    let bytes: &[u8] = &[0x82, 0x01, 0x00];
    let r = BlockResponse::deserialize(bytes);
    assert_eq!(r, Err(DecodeError::UnknownVariant(1)));
}

#[test]
fn block_response_captures_block_item() {
    // [0, [uint(1), bytes(0x22)]]: the block is the nested two-element item.
    let bytes: &[u8] = &[0x82, 0x00, 0x82, 0x01, 0x41, 0x22];
    let BlockResponse::Block(block) = BlockResponse::deserialize(bytes).unwrap();
    assert_eq!(block.as_bytes().as_slice(), &[0x82, 0x01, 0x41, 0x22]);
}

#[test]
fn block_response_truncated() {
    let bytes: &[u8] = &[0x82, 0x00];
    let r = BlockResponse::deserialize(bytes);
    assert_eq!(r, Err(DecodeError::MalformedEncoding));
}

#[test]
fn diagnostic_listings() {
    assert_eq!(HandlerSpec::new(5).fmt(), "5");
    assert_eq!(HandlerSpec::new(12345).fmt(), "12345");
    assert_eq!(HandlerSpec::new(0).fmt(), "0");

    let mut table = HandlerSpecs::new();
    assert!(table.insert(24, HandlerSpec::new(3)));
    assert!(table.insert(1, HandlerSpec::new(2)));
    assert_eq!(table.fmt(), "  * 1 -> 2\n  * 24 -> 3\n");

    let hs = Handshake::default();
    let listing = hs.fmt();
    assert!(listing.starts_with(
        "protocol magic: 764824073\nversion: 0.1.0\nin handlers:\n  * 4 -> 5\n"
    ));
    assert!(listing.contains("out handlers:\n"));
}

#[test]
fn default_tables_hold_published_entries() {
    let ins = HandlerSpecs::default_ins();
    assert_eq!(ins.len(), 19);
    assert_eq!(ins.entry(0), (0x04, HandlerSpec::new(0x05)));
    assert_eq!(ins.entry(3), (0x22, HandlerSpec::new(0x5e)));
    assert_eq!(ins.entry(18), (0x62, HandlerSpec::new(0x37)));

    let outs = HandlerSpecs::default_outs();
    assert_eq!(outs.len(), 13);
    assert_eq!(outs.entry(3), (0x0d, HandlerSpec::new(0x00)));
    assert_eq!(outs.entry(12), (0x53, HandlerSpec::new(0x00)));
}
