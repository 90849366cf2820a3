use deilephila::cid::bytes_to_cid;
use deilephila::event::{envelope_cid, envelope_from_dag_cbor, envelope_to_dag_cbor, EventKind};
use deilephila::head::{
    create_ipns_record, feed_topic_str, record_to_bytes, verify_ipns_record, IpnsRecord,
};
use deilephila::identity::{create_envelope, Identity};
use deilephila::network::event_loop::{
    answer_want_block, block_candidates, collect_candidate, handle_block_response, handle_gossip,
    handle_inbound_put, handle_outbound_failure, request_block_from_next, verify_block_response,
    BlockStep, GossipError,
};
use deilephila::network::ipns::{
    expires_from_validity, head_record_key, record_matches_topic, DhtRecord,
};
use deilephila::network::protocol::{
    decode_length, encode_length, BlockExchangeCodec, BlockExchangeProtocol, BlockResponse,
    FrameError, WantBlock, MAX_REQUEST_LEN, MAX_RESPONSE_LEN,
};
use deilephila::network::{self, publish_head_record, resolve_ipns};
use deilephila::store::Store;
use deilephila::util::{bytes_to_hex, far_future_ms, now_ms};

fn make_record(identity: &Identity, sequence: u64, validity: i64) -> IpnsRecord {
    create_ipns_record(
        identity,
        sequence,
        bytes_to_cid(b"head block"),
        validity,
        Some(bytes_to_cid(b"profile block")),
        "Alice".to_string(),
    )
}

fn dht_record(pubkey: &[u8; 32], value: Vec<u8>) -> DhtRecord {
    DhtRecord {
        key: head_record_key(pubkey),
        value,
    }
}

/// A node's part of the hash table: one key.
struct Shelf {
    value: Option<Vec<u8>>,
}

impl Shelf {
    fn put(&mut self, record: &IpnsRecord) -> bool {
        let p = publish_head_record(record, 0);
        let put = DhtRecord {
            key: p.key,
            value: p.data,
        };
        match handle_inbound_put(&put, self.value.as_deref(), 0) {
            Ok(accepted) => {
                self.value = Some(accepted.value);
                true
            }
            Err(_) => false,
        }
    }
}

fn resolve(pubkey: &[u8; 32], shelves: &[&Shelf]) -> Option<IpnsRecord> {
    let mut candidates: Vec<IpnsRecord> = Vec::new();
    for shelf in shelves {
        if let Some(value) = &shelf.value {
            collect_candidate(&mut candidates, value);
        }
    }
    resolve_ipns(pubkey, &candidates)
}

// The wire format

#[test]
fn read_request_rejects_oversized_length() {
    let codec = BlockExchangeCodec;
    let bytes = (MAX_REQUEST_LEN + 1).to_be_bytes().to_vec();
    let err = codec.read_request(&bytes).unwrap_err();
    assert_eq!(
        err,
        FrameError::LengthExceeded {
            len: 257,
            max: 256
        }
    );
    assert_eq!(err.to_string(), "length prefix 257 exceeds limit 256");
}

#[test]
fn read_response_rejects_oversized_length() {
    let codec = BlockExchangeCodec;
    let mut bytes = vec![1u8];
    bytes.extend_from_slice(&(MAX_RESPONSE_LEN + 1).to_be_bytes());
    let err = codec.read_response(&bytes).unwrap_err();
    assert_eq!(
        err,
        FrameError::LengthExceeded {
            len: 1_048_577,
            max: 1_048_576
        }
    );
}

#[test]
fn request_round_trip_within_limit() {
    let codec = BlockExchangeCodec;
    let req = WantBlock {
        cid_bytes: vec![0xAB; 36],
    };
    let bytes = codec.write_request(&req);
    assert_eq!(&bytes[..4], &[0, 0, 0, 36]);
    let read = codec.read_request(&bytes).unwrap();
    assert_eq!(read.cid_bytes, req.cid_bytes);
}

#[test]
fn response_round_trip_within_limit() {
    let codec = BlockExchangeCodec;
    let data = vec![0xCD; 4096];
    let bytes = codec.write_response(&BlockResponse::Found { data: data.clone() });
    assert_eq!(&bytes[..5], &[1, 0, 0, 0x10, 0]);
    match codec.read_response(&bytes).unwrap() {
        BlockResponse::Found { data: read } => assert_eq!(read, data),
        BlockResponse::NotFound => panic!("expected Found"),
    }
    let none = codec.write_response(&BlockResponse::NotFound);
    assert_eq!(none, vec![0u8]);
    assert!(matches!(
        codec.read_response(&none),
        Ok(BlockResponse::NotFound)
    ));
}

#[test]
fn broken_messages_are_refused() {
    let codec = BlockExchangeCodec::default();
    assert_eq!(codec.read_request(&[0, 0]).unwrap_err(), FrameError::UnexpectedEof);
    assert_eq!(
        codec.read_request(&[0, 0, 0, 2, 9]).unwrap_err(),
        FrameError::UnexpectedEof
    );
    assert_eq!(codec.read_response(&[]).unwrap_err(), FrameError::UnexpectedEof);
    assert_eq!(codec.read_response(&[7]).unwrap_err(), FrameError::UnknownTag);
    assert_eq!(FrameError::UnexpectedEof.to_string(), "unexpected end of file");
    assert_eq!(FrameError::UnknownTag.to_string(), "unknown tag");
    // The longest that is accepted.
    let longest = codec.write_request(&WantBlock {
        cid_bytes: vec![1; 256],
    });
    assert_eq!(codec.read_request(&longest).unwrap().cid_bytes.len(), 256);
    assert_eq!(decode_length(&[0, 0, 1, 0], 256), Ok(256));
    assert_eq!(encode_length(0x0102_0304), [1, 2, 3, 4]);
    assert_eq!(
        BlockExchangeProtocol.as_ref(),
        "/deilephila/block-exchange/1.0.0"
    );
}

// Head records

#[test]
fn record_topic_match_rules() {
    let id = Identity::generate().unwrap();
    let other = Identity::generate().unwrap();
    let record = make_record(&id, 1, far_future_ms().unwrap());

    let own_topic = feed_topic_str(&bytes_to_hex(&id.public_key_bytes()));
    let other_topic = feed_topic_str(&bytes_to_hex(&other.public_key_bytes()));
    let unrelated_topic = "deilephila/unrelated";

    assert!(record_matches_topic(&record, &own_topic));
    assert!(!record_matches_topic(&record, &other_topic));
    assert!(!record_matches_topic(&record, unrelated_topic));
}

#[test]
fn ipns_inbound_record_validation_rules() {
    let validate = network::ipns::validate_inbound_head_record;
    let now = now_ms().unwrap();
    let id = Identity::generate().unwrap();
    let pubkey = id.public_key_bytes();
    let validity = far_future_ms().unwrap();
    let record = make_record(&id, 5, validity);
    let inbound = dht_record(&pubkey, record_to_bytes(&record));

    let accepted = validate(&inbound, None, now).unwrap();
    assert!(accepted.ttl_ms > 0);
    assert_eq!(accepted.ttl_ms, (validity - now) as u64);
    assert_eq!(accepted.value, inbound.value);
    assert_eq!(accepted.key, inbound.key);

    assert!(validate(&inbound, Some((4, validity)), now).is_ok());
    assert!(validate(&inbound, Some((5, validity)), now).is_err());
    assert!(validate(&inbound, Some((6, validity)), now).is_err());

    assert!(validate(&inbound, Some((5, validity - 1)), now).is_ok());
    assert!(validate(&inbound, Some((5, validity + 1)), now).is_err());

    let mut tampered = record.clone();
    tampered.payload.sequence = 9;
    let bad = dht_record(&pubkey, record_to_bytes(&tampered));
    assert!(validate(&bad, None, now).is_err());

    let other = Identity::generate().unwrap();
    let wrong_key = dht_record(&other.public_key_bytes(), record_to_bytes(&record));
    assert!(validate(&wrong_key, None, now).is_err());

    let garbage = dht_record(&pubkey, b"not cbor \xff".to_vec());
    assert!(validate(&garbage, None, now).is_err());
}

#[test]
fn mod_inbound_record_validation_rules() {
    let validate = network::validate_inbound_head_record;
    let now = now_ms().unwrap();
    let id = Identity::generate().unwrap();
    let pubkey = id.public_key_bytes();
    let record = make_record(&id, 5, far_future_ms().unwrap());
    let inbound = dht_record(&pubkey, record_to_bytes(&record));

    let accepted = validate(&inbound, None, now).unwrap();
    assert!(accepted.ttl_ms > 0);

    assert!(validate(&inbound, Some(4), now).is_ok());
    assert!(validate(&inbound, Some(5), now).is_err());
    assert!(validate(&inbound, Some(6), now).is_err());

    let mut tampered = record.clone();
    tampered.payload.sequence = 9;
    let bad = dht_record(&pubkey, record_to_bytes(&tampered));
    assert!(validate(&bad, None, now).is_err());

    let other = Identity::generate().unwrap();
    let wrong_key = dht_record(&other.public_key_bytes(), record_to_bytes(&record));
    assert!(validate(&wrong_key, None, now).is_err());

    let garbage = dht_record(&pubkey, b"not cbor \xff".to_vec());
    assert!(validate(&garbage, None, now).is_err());
}

#[test]
fn refused_records_say_why() {
    let id = Identity::from_seed(&[1u8; 32]);
    let pubkey = id.public_key_bytes();
    let record = make_record(&id, 5, 100);
    let inbound = dht_record(&pubkey, record_to_bytes(&record));
    assert_eq!(
        network::ipns::validate_inbound_head_record(&inbound, Some((5, 200)), 0).unwrap_err(),
        "stale record (sequence 5, validity 100) (known: sequence 5, validity 200)"
    );
    assert_eq!(
        network::validate_inbound_head_record(&inbound, Some(7), 0).unwrap_err(),
        "stale sequence 5 (known 7)"
    );
    let wrong_key = dht_record(&[9u8; 32], record_to_bytes(&record));
    assert_eq!(
        network::validate_inbound_head_record(&wrong_key, None, 0).unwrap_err(),
        "key does not match record name"
    );
    let mut tampered = record.clone();
    tampered.payload.validity = 101;
    let bad = dht_record(&pubkey, record_to_bytes(&tampered));
    assert_eq!(
        network::validate_inbound_head_record(&bad, None, 0).unwrap_err(),
        "invalid signature"
    );
    let garbage = dht_record(&pubkey, vec![0xa0]);
    assert_eq!(
        network::validate_inbound_head_record(&garbage, None, 0).unwrap_err(),
        "undecodable: failed to decode IPNS head record: not a head record"
    );
}

#[test]
fn records_that_ran_out_live_no_longer() {
    assert_eq!(expires_from_validity(1_000, 400), 600);
    assert_eq!(expires_from_validity(1_000, 1_000), 0);
    assert_eq!(expires_from_validity(1_000, 2_000), 0);
    assert_eq!(expires_from_validity(i64::MAX, i64::MIN), i64::MAX as u64);
}

#[test]
fn keys_in_the_hash_table() {
    assert_eq!(
        head_record_key(&[0xab; 32]),
        format!("/deilephila/head/{}", "ab".repeat(32)).into_bytes()
    );
}

#[test]
fn dht_put_resolve_roundtrip() {
    let id = Identity::generate().unwrap();
    let mut shelf = Shelf { value: None };
    assert!(shelf.put(&make_record(&id, 5, far_future_ms().unwrap())));
    let resolved = resolve(&id.public_key_bytes(), &[&shelf]).unwrap();
    assert_eq!(resolved.payload.sequence, 5);
    assert_eq!(resolved.payload.display_name, "Alice");
    assert!(verify_ipns_record(&resolved).is_ok());
}

#[test]
fn stale_put_does_not_regress() {
    let id = Identity::generate().unwrap();
    let validity = far_future_ms().unwrap();
    let mut shelf_b = Shelf { value: None };
    let mut shelf_c = Shelf { value: None };
    assert!(shelf_b.put(&make_record(&id, 5, validity)));
    let key = id.public_key_bytes();
    assert_eq!(
        resolve(&key, &[&shelf_b, &shelf_c]).unwrap().payload.sequence,
        5
    );

    // A third node hands out an old record: where the newer one is kept it is refused, and
    // elsewhere it loses.
    assert!(!shelf_b.put(&make_record(&id, 3, validity)));
    assert!(shelf_c.put(&make_record(&id, 3, validity)));
    assert_eq!(
        resolve(&key, &[&shelf_c, &shelf_b]).unwrap().payload.sequence,
        5
    );
}

#[test]
fn invalid_record_not_resolvable() {
    let id = Identity::generate().unwrap();
    let mut tampered = make_record(&id, 9, far_future_ms().unwrap());
    tampered.payload.sequence = 10;
    let mut shelf_b = Shelf { value: None };
    assert!(!shelf_b.put(&tampered));
    // The node that made it keeps it; nobody who asks takes it.
    let shelf_a = Shelf {
        value: Some(record_to_bytes(&tampered)),
    };
    assert!(resolve(&id.public_key_bytes(), &[&shelf_a, &shelf_b]).is_none());
}

#[test]
fn record_over_gossipsub() {
    let id = Identity::generate().unwrap();
    let published = publish_head_record(&make_record(&id, 2, far_future_ms().unwrap()), 0);
    assert_eq!(
        published.topic,
        feed_topic_str(&bytes_to_hex(&id.public_key_bytes()))
    );
    let record = handle_gossip(&published.topic, &published.data).unwrap();
    assert_eq!(record.payload.sequence, 2);
    assert!(verify_ipns_record(&record).is_ok());

    assert!(matches!(
        handle_gossip("deilephila/feed/00", &published.data),
        Err(GossipError::WrongTopic)
    ));
    assert!(matches!(
        handle_gossip(&published.topic, b"\xff"),
        Err(GossipError::Undecodable(_))
    ));
}

#[test]
fn values_without_records_are_no_candidates() {
    let mut candidates: Vec<IpnsRecord> = Vec::new();
    collect_candidate(&mut candidates, b"\xff");
    assert!(candidates.is_empty());
    let id = Identity::from_seed(&[2u8; 32]);
    collect_candidate(&mut candidates, &record_to_bytes(&make_record(&id, 1, 5)));
    assert_eq!(candidates.len(), 1);
    // A kept value that is no record does not stand in the way.
    let put = dht_record(
        &id.public_key_bytes(),
        record_to_bytes(&make_record(&id, 1, 5)),
    );
    assert!(handle_inbound_put(&put, Some(b"\xff"), 0).is_ok());
}

// Blocks

#[test]
fn test_block_exchange_direct_dial() {
    let identity = Identity::generate().unwrap();
    let envelope = create_envelope(
        &identity,
        0,
        None,
        EventKind::Post {
            text: "hello network".to_string(),
        },
    )
    .unwrap();
    let raw = envelope_to_dag_cbor(&envelope);
    let cid = envelope_cid(&envelope);

    // Node A has the block.
    let mut store_a = Store::open_in_memory();
    store_a.insert_event(&envelope, 1);

    // Node B asks its only peer, over the wire.
    let codec = BlockExchangeCodec;
    let peers = vec![b"peer a".to_vec()];
    let step = request_block_from_next(cid.clone(), block_candidates(&None, &peers));
    let (request, pending) = match step {
        BlockStep::Ask {
            peer,
            request,
            pending,
        } => {
            assert_eq!(peer, b"peer a".to_vec());
            (request, pending)
        }
        _ => panic!("nobody is asked"),
    };
    let request = codec.read_request(&codec.write_request(&request)).unwrap();
    let response = answer_want_block(&store_a, &request);
    let response = codec.read_response(&codec.write_response(&response)).unwrap();
    let received = match handle_block_response(pending, response) {
        BlockStep::Deliver { data } => data,
        _ => panic!("get_block returned None"),
    };

    assert_eq!(received, raw);
    let recovered = envelope_from_dag_cbor(&received).unwrap();
    assert_eq!(envelope_cid(&recovered), cid);
}

#[test]
fn blocks_are_asked_for_one_peer_after_another() {
    let a = b"a".to_vec();
    let b = b"b".to_vec();
    let c = b"c".to_vec();
    let connected = vec![a.clone(), b.clone(), c.clone()];
    assert_eq!(
        block_candidates(&Some(b.clone()), &connected),
        vec![b.clone(), a.clone(), c.clone()]
    );
    // A preferred peer that is not connected is not asked.
    assert_eq!(
        block_candidates(&Some(b"z".to_vec()), &connected),
        connected
    );
    assert!(block_candidates(&Some(a.clone()), &vec![]).is_empty());

    let block = b"block".to_vec();
    let cid = bytes_to_cid(&block);
    let mut step =
        request_block_from_next(cid.clone(), block_candidates(&Some(b.clone()), &connected));
    let mut asked = Vec::new();
    for answer in 0..3 {
        let pending = match step {
            BlockStep::Ask {
                peer,
                request,
                pending,
            } => {
                assert_eq!(request.cid_bytes, cid.to_bytes());
                asked.push(peer);
                pending
            }
            _ => panic!("too early"),
        };
        step = match answer {
            0 => handle_block_response(pending, BlockResponse::NotFound),
            1 => handle_outbound_failure(pending),
            _ => handle_block_response(
                pending,
                BlockResponse::Found {
                    data: b"something else".to_vec(),
                },
            ),
        };
    }
    assert_eq!(asked, vec![b, a, c]);
    assert!(matches!(step, BlockStep::GiveUp));
    assert!(matches!(
        request_block_from_next(cid.clone(), vec![]),
        BlockStep::GiveUp
    ));
    assert_eq!(
        verify_block_response(BlockResponse::Found { data: block.clone() }, &cid),
        Some(block)
    );
    assert_eq!(verify_block_response(BlockResponse::NotFound, &cid), None);
}

#[test]
fn requests_that_name_no_block_find_none() {
    let store = Store::open_in_memory();
    for cid_bytes in [vec![], b"junk".to_vec(), bytes_to_cid(b"x").to_bytes()] {
        assert!(matches!(
            answer_want_block(&store, &WantBlock { cid_bytes }),
            BlockResponse::NotFound
        ));
    }
}

#[test]
fn resolve_via_intermediate_node() {
    // B took the record in; C asks only B.
    let id = Identity::generate().unwrap();
    let mut shelf_b = Shelf { value: None };
    assert!(shelf_b.put(&make_record(&id, 7, far_future_ms().unwrap())));
    let resolved = resolve(&id.public_key_bytes(), &[&shelf_b]).unwrap();
    assert_eq!(resolved.payload.sequence, 7);
}
