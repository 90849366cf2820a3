use deilephila::event::{envelope_cid, envelope_to_dag_cbor, EventKind};
use deilephila::head::{create_ipns_record, feed_topic_str, record_to_bytes, IpnsRecord};
use deilephila::identity::{create_envelope_at, Identity};
use deilephila::network::event_loop::GossipError;
use deilephila::network::ipns::{head_record_key, DhtRecord};
use deilephila::network::pending::Slots;
use deilephila::network::protocol::{BlockResponse, WantBlock};
use deilephila::network::swarm::{LoopAction, LoopInput, SwarmState};
use deilephila::store::Store;
use deilephila::util::{bytes_to_cid, bytes_to_hex};

fn record(id: &Identity, sequence: u64) -> IpnsRecord {
    create_ipns_record(id, sequence, bytes_to_cid(b"head"), 9_000, None, "Al".to_string())
}

fn get_block(state: &mut SwarmState, block: &[u8], peers: &[&[u8]]) -> LoopAction {
    state.step(
        &Store::open_in_memory(),
        LoopInput::GetBlock {
            cid: bytes_to_cid(block),
            prefer: None,
            connected: peers.iter().map(|p| p.to_vec()).collect(),
        },
    )
}

fn asked(action: LoopAction) -> (usize, Vec<u8>, Vec<u8>) {
    match action {
        LoopAction::Ask {
            slot,
            peer,
            request,
        } => (slot, peer, request.cid_bytes),
        _ => panic!("nobody is asked"),
    }
}

#[test]
fn slots_are_used_again() {
    let mut slots: Slots<u8> = Slots::new();
    let a = slots.insert(1);
    let b = slots.insert(2);
    assert_ne!(a, b);
    assert_eq!(slots.take(a), Some(1));
    assert_eq!(slots.take(a), None);
    assert_eq!(slots.take(99), None);
    assert_eq!(slots.insert(3), a);
    assert_eq!(slots.take(b), Some(2));
    slots.put_back(b, 4);
    assert_eq!(slots.take(b), Some(4));
}

#[test]
fn a_connected_holder_is_found() {
    let store = Store::open_in_memory();
    let mut state = SwarmState::new();
    let cid = bytes_to_cid(b"block").to_bytes();
    let (slot, peer, wanted) = asked(get_block(&mut state, b"block", &[b"a", b"b", b"c"]));
    assert_eq!((peer, wanted), (b"a".to_vec(), cid.clone()));

    // The first does not have it, the second cannot be reached.
    let (again, peer, _) = asked(state.step(
        &store,
        LoopInput::BlockAnswer {
            slot,
            response: BlockResponse::NotFound,
        },
    ));
    assert_eq!((again, peer), (slot, b"b".to_vec()));
    let (again, peer, wanted) = asked(state.step(&store, LoopInput::BlockFailure { slot }));
    assert_eq!((again, peer, wanted), (slot, b"c".to_vec(), cid));
    let found = BlockResponse::Found {
        data: b"block".to_vec(),
    };
    match state.step(
        &store,
        LoopInput::BlockAnswer {
            slot,
            response: found.clone(),
        },
    ) {
        LoopAction::BlockDone { data } => assert_eq!(data, Some(b"block".to_vec())),
        _ => panic!("not delivered"),
    }
    // The outcome comes once.
    assert!(matches!(
        state.step(
            &store,
            LoopInput::BlockAnswer {
                slot,
                response: found
            }
        ),
        LoopAction::Idle
    ));
}

#[test]
fn without_a_holder_the_search_ends() {
    let store = Store::open_in_memory();
    let mut state = SwarmState::new();
    assert!(matches!(
        get_block(&mut state, b"block", &[]),
        LoopAction::BlockDone { data: None }
    ));
    let (slot, _, _) = asked(get_block(&mut state, b"block", &[b"a"]));
    // A block with another CID does not count.
    let response = BlockResponse::Found {
        data: b"other".to_vec(),
    };
    assert!(matches!(
        state.step(&store, LoopInput::BlockAnswer { slot, response }),
        LoopAction::BlockDone { data: None }
    ));
}

#[test]
fn requests_do_not_disturb_each_other() {
    let store = Store::open_in_memory();
    let mut state = SwarmState::new();
    let (first, _, _) = asked(get_block(&mut state, b"one", &[b"a", b"b"]));
    let (second, _, _) = asked(get_block(&mut state, b"two", &[b"a", b"b"]));
    assert_ne!(first, second);
    let response = BlockResponse::Found {
        data: b"two".to_vec(),
    };
    assert!(matches!(
        state.step(&store, LoopInput::BlockAnswer { slot: second, response }),
        LoopAction::BlockDone { data: Some(_) }
    ));
    let (slot, peer, wanted) = asked(state.step(&store, LoopInput::BlockFailure { slot: first }));
    assert_eq!(slot, first);
    assert_eq!(peer, b"b".to_vec());
    assert_eq!(wanted, bytes_to_cid(b"one").to_bytes());
}

#[test]
fn queries_gather_what_they_find() {
    let store = Store::open_in_memory();
    let id = Identity::from_seed(&[4; 32]);
    let mut state = SwarmState::new();
    let pubkey = id.public_key_bytes();
    let slot = match state.step(&store, LoopInput::ResolveIpns { pubkey }) {
        LoopAction::Query { slot, key } => {
            assert_eq!(key, head_record_key(&pubkey));
            slot
        }
        _ => panic!("no query"),
    };
    for value in [
        record_to_bytes(&record(&id, 1)),
        b"junk".to_vec(),
        record_to_bytes(&record(&id, 2)),
    ] {
        assert!(matches!(
            state.step(&store, LoopInput::FoundRecord { slot, value }),
            LoopAction::Idle
        ));
    }
    match state.step(&store, LoopInput::QueryEnded { slot }) {
        LoopAction::Resolved { candidates } => {
            let sequences: Vec<u64> = candidates.iter().map(|r| r.payload.sequence).collect();
            assert_eq!(sequences, vec![1, 2]);
        }
        _ => panic!("nothing handed out"),
    }
    assert!(matches!(
        state.step(&store, LoopInput::QueryEnded { slot }),
        LoopAction::Idle
    ));
    assert!(matches!(
        state.step(
            &store,
            LoopInput::FoundRecord {
                slot,
                value: vec![]
            }
        ),
        LoopAction::Idle
    ));
}

#[test]
fn what_is_published_is_taken_in() {
    let store = Store::open_in_memory();
    let mut state = SwarmState::new();
    let id = Identity::from_seed(&[5; 32]);
    let hex = bytes_to_hex(&id.public_key_bytes());
    let topic = match state.step(
        &store,
        LoopInput::Subscribe {
            pubkey_hex: hex.clone(),
        },
    ) {
        LoopAction::Join { topic } => topic,
        _ => panic!("not joined"),
    };
    assert_eq!(topic, feed_topic_str(&hex));
    let publication = match state.step(
        &store,
        LoopInput::PublishHead {
            record: record(&id, 3),
            now_ms: 1_000,
        },
    ) {
        LoopAction::Publish { publication } => publication,
        _ => panic!("not published"),
    };
    assert_eq!(publication.topic, topic);
    assert_eq!(publication.ttl_ms, 8_000);

    let gossip = |topic: &str, data: &[u8]| LoopInput::Gossip {
        topic: topic.to_string(),
        data: data.to_vec(),
    };
    match state.step(&store, gossip(&topic, &publication.data)) {
        LoopAction::Announcement { record: Ok(r) } => assert_eq!(r.payload.sequence, 3),
        _ => panic!("not announced"),
    }
    match state.step(&store, gossip("elsewhere", &publication.data)) {
        LoopAction::Announcement { record: Err(e) } => assert_eq!(e, GossipError::WrongTopic),
        _ => panic!("not dropped"),
    }
    match state.step(&store, gossip(&topic, b"junk")) {
        LoopAction::Announcement { record: Err(e) } => {
            assert!(matches!(e, GossipError::Undecodable(_)))
        }
        _ => panic!("not dropped"),
    }

    let put = || DhtRecord {
        key: publication.key.clone(),
        value: publication.data.clone(),
    };
    match state.step(
        &store,
        LoopInput::InboundPut {
            put: put(),
            existing: None,
            now_ms: 2_000,
        },
    ) {
        LoopAction::PutDecision { decision: Ok(a) } => {
            assert_eq!(a.value, publication.data);
            assert_eq!(a.ttl_ms, 7_000);
        }
        _ => panic!("not kept"),
    }
    match state.step(
        &store,
        LoopInput::InboundPut {
            put: put(),
            existing: Some(publication.data.clone()),
            now_ms: 2_000,
        },
    ) {
        LoopAction::PutDecision { decision } => assert!(decision.is_err()),
        _ => panic!("not decided"),
    }
    match state.step(&store, LoopInput::Unsubscribe { pubkey_hex: hex }) {
        LoopAction::Leave { topic: left } => assert_eq!(left, topic),
        _ => panic!("not left"),
    }
}

#[test]
fn blocks_are_served_from_the_store() {
    let id = Identity::from_seed(&[6; 32]);
    let text = "hi".to_string();
    let envelope = create_envelope_at(&id, 0, None, EventKind::Post { text }, 1);
    let mut store = Store::open_in_memory();
    store.insert_event(&envelope, 1);
    let mut state = SwarmState::new();
    let request = WantBlock {
        cid_bytes: envelope_cid(&envelope).to_bytes(),
    };
    match state.step(&store, LoopInput::WantBlock { request }) {
        LoopAction::Respond {
            response: BlockResponse::Found { data },
        } => assert_eq!(data, envelope_to_dag_cbor(&envelope)),
        _ => panic!("not found"),
    }
}
