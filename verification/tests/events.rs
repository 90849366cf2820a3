use deilephila::chain::fold;
use deilephila::cid::{bytes_to_cid, Cid};
use deilephila::event::{
    envelope_cid, envelope_from_dag_cbor, envelope_to_dag_cbor, payload_to_dag_cbor,
    verify_chain_link, verify_envelope, ChainError, EventEnvelope, EventKind, EventPayload,
    VerifyError,
};
use deilephila::identity::{
    create_envelope, create_envelope_at, create_envelope_when, verify_signature, Identity,
    IdentityError,
};

fn make_post_payload(seq: u64, prev: Option<Cid>, author: &Identity) -> EventPayload {
    EventPayload {
        seq,
        kind: EventKind::Post {
            text: "hello".to_string(),
        },
        prev,
        author: author.public_key_bytes(),
        timestamp: 1_000_000,
    }
}

fn post(identity: &Identity, seq: u64, prev: Option<Cid>, text: &str) -> EventEnvelope {
    create_envelope(
        identity,
        seq,
        prev,
        EventKind::Post {
            text: text.to_string(),
        },
    )
    .unwrap()
}

fn build_chain(identity: &Identity, n: usize) -> Vec<(Cid, EventEnvelope)> {
    let mut pairs: Vec<(Cid, EventEnvelope)> = Vec::new();
    for i in 0..n {
        let prev = if i == 0 {
            None
        } else {
            Some(pairs[i - 1].0.clone())
        };
        let envelope = post(identity, i as u64, prev, &format!("event {}", i));
        let cid = envelope_cid(&envelope);
        pairs.push((cid, envelope));
    }
    pairs
}

fn make_chain(identity: &Identity, kinds: Vec<EventKind>) -> Vec<(Cid, EventEnvelope)> {
    let mut pairs: Vec<(Cid, EventEnvelope)> = Vec::new();
    for (i, kind) in kinds.into_iter().enumerate() {
        let prev = if i == 0 {
            None
        } else {
            Some(pairs[i - 1].0.clone())
        };
        let envelope = create_envelope(identity, i as u64, prev, kind).unwrap();
        let cid = envelope_cid(&envelope);
        pairs.push((cid, envelope));
    }
    pairs
}

// Serialization

#[test]
fn dag_cbor_deterministic() {
    let identity = Identity::generate().unwrap();
    let payload = make_post_payload(0, None, &identity);
    let a = payload_to_dag_cbor(&payload);
    let b = payload_to_dag_cbor(&payload);
    assert_eq!(a, b);
}

#[test]
fn cid_deterministic() {
    let identity = Identity::generate().unwrap();
    let payload = make_post_payload(0, None, &identity);
    let a = bytes_to_cid(&payload_to_dag_cbor(&payload));
    let b = bytes_to_cid(&payload_to_dag_cbor(&payload));
    assert_eq!(a, b);
}

#[test]
fn cid_changes_on_mutation() {
    let identity = Identity::generate().unwrap();
    let p1 = make_post_payload(0, None, &identity);
    let mut p2 = p1.clone();
    p2.kind = EventKind::Post {
        text: "different".to_string(),
    };
    let cid1 = bytes_to_cid(&payload_to_dag_cbor(&p1));
    let cid2 = bytes_to_cid(&payload_to_dag_cbor(&p2));
    assert_ne!(cid1, cid2);
}

#[test]
fn payload_block_is_canonical() {
    // The keys of a map come by length and then by the alphabet: seq, kind, prev, author,
    // timestamp. Bytes are bytes, and no predecessor is null.
    let payload = EventPayload {
        seq: 0,
        kind: EventKind::Post {
            text: "a".to_string(),
        },
        prev: None,
        author: [7u8; 32],
        timestamp: 1,
    };
    let mut expected: Vec<u8> = vec![0xa5];
    expected.extend_from_slice(b"\x63seq\x00");
    expected.extend_from_slice(b"\x64kind\xa1\x64Post\xa1\x64text\x61a");
    expected.extend_from_slice(b"\x64prev\xf6");
    expected.extend_from_slice(b"\x66author\x58\x20");
    expected.extend_from_slice(&[7u8; 32]);
    expected.extend_from_slice(b"\x69timestamp\x01");
    assert_eq!(payload_to_dag_cbor(&payload), expected);
}

#[test]
fn every_kind_reads_back() {
    let identity = Identity::from_seed(&[3u8; 32]);
    let target = bytes_to_cid(b"target");
    let kinds = vec![
        EventKind::Post {
            text: "p".to_string(),
        },
        EventKind::Edit {
            text: "e".to_string(),
            target: target.clone(),
        },
        EventKind::Delete {
            target: target.clone(),
        },
        EventKind::Reply {
            text: "r".to_string(),
            target: target.clone(),
        },
        EventKind::Profile {
            display_name: "n".to_string(),
            bio: "b".to_string(),
            avatar_cid: Some(target.clone()),
        },
        EventKind::Follow {
            added: vec![[1u8; 32], [2u8; 32]],
            removed: vec![[3u8; 32]],
        },
    ];
    let names = ["Post", "Edit", "Delete", "Reply", "Profile", "Follow"];
    for (i, kind) in kinds.into_iter().enumerate() {
        assert_eq!(kind.to_string(), names[i]);
        let envelope = create_envelope_at(&identity, 4, Some(target.clone()), kind, -5);
        let block = envelope_to_dag_cbor(&envelope);
        let again = envelope_from_dag_cbor(&block).unwrap();
        assert_eq!(envelope_to_dag_cbor(&again), block);
        assert_eq!(again.payload.seq, 4);
        assert_eq!(again.payload.timestamp, -5);
        assert_eq!(again.payload.kind.to_string(), names[i]);
        assert!(verify_envelope(&again).is_ok());
    }
}

#[test]
fn blocks_that_hold_no_event_are_refused() {
    assert!(envelope_from_dag_cbor(b"").is_err());
    assert!(envelope_from_dag_cbor(b"not cbor \xff").is_err());
    // A map without entries.
    assert_eq!(
        envelope_from_dag_cbor(&[0xa0]).unwrap_err(),
        "not an event"
    );
    // An event with something behind it.
    let identity = Identity::generate().unwrap();
    let mut block = envelope_to_dag_cbor(&post(&identity, 0, None, "x"));
    block.push(0);
    assert!(envelope_from_dag_cbor(&block).is_err());
}

#[test]
fn fields_that_no_event_has_are_passed_over() {
    let identity = Identity::generate().unwrap();
    let envelope = post(&identity, 0, None, "x");
    let mut block = envelope_to_dag_cbor(&envelope);
    assert_eq!(block[0], 0xa2);
    // One more entry, behind the others and out of order.
    block[0] = 0xa3;
    block.extend_from_slice(&[0x61, b'x', 0x01]);
    let read = envelope_from_dag_cbor(&block).unwrap();
    assert_eq!(envelope_cid(&read), envelope_cid(&envelope));
}

#[test]
fn cids_are_version_one_with_sha2_256() {
    let cid = bytes_to_cid(b"");
    let bytes = cid.to_bytes();
    assert_eq!(&bytes[..4], &[0x01, 0x71, 0x12, 0x20]);
    // The digest of nothing.
    assert_eq!(&bytes[4..8], &[0xe3, 0xb0, 0xc4, 0x42]);
    assert_eq!(bytes.len(), 36);
    let text = cid.to_string();
    assert!(text.starts_with("bafy"));
    assert_eq!(Cid::parse(&text).unwrap(), cid);
    assert_eq!(Cid::from_bytes(&bytes).unwrap(), cid);
    assert!(Cid::parse("nonsense").is_none());
    assert!(Cid::from_bytes(b"nonsense").is_none());
    assert!(cid.same(&cid.clone()));
    assert!(!cid.same(&bytes_to_cid(b"x")));
}

// Signatures

#[test]
fn sign_and_verify_envelope() {
    let identity = Identity::generate().unwrap();
    let envelope = post(&identity, 0, None, "hi");
    assert!(verify_envelope(&envelope).is_ok());
}

#[test]
fn tampered_payload_rejected() {
    let identity = Identity::generate().unwrap();
    let mut envelope = post(&identity, 0, None, "hi");
    envelope.payload.kind = EventKind::Post {
        text: "tampered".to_string(),
    };
    assert!(verify_envelope(&envelope).is_err());
}

#[test]
fn tampered_signature_rejected() {
    let identity = Identity::generate().unwrap();
    let mut envelope = post(&identity, 0, None, "hi");
    envelope.signature = [0u8; 64];
    assert!(verify_envelope(&envelope).is_err());
}

#[test]
fn identities_need_randomness() {
    let identity = Identity::from_random(Some([9; 32])).ok().unwrap();
    assert_eq!(identity.seed_bytes(), [9; 32]);
    assert_eq!(
        Identity::from_random(None).err(),
        Some(IdentityError::RngUnavailable)
    );
}

#[test]
fn events_need_a_clock() {
    let identity = Identity::from_seed(&[9; 32]);
    let kind = || EventKind::Post {
        text: "hello".to_string(),
    };
    let envelope = create_envelope_when(&identity, 0, None, kind(), Some(77)).unwrap();
    assert_eq!(envelope.payload.timestamp, 77);
    assert!(verify_envelope(&envelope).is_ok());
    assert!(create_envelope_when(&identity, 0, None, kind(), None).is_none());
}

#[test]
fn keypair_generation() {
    let identity = Identity::generate().unwrap();
    let bytes = identity.public_key_bytes();
    assert_eq!(bytes.len(), 32);
    assert_ne!(bytes, [0u8; 32]);
}

#[test]
fn sign_and_verify() {
    let identity = Identity::generate().unwrap();
    let msg = b"test message";
    let sig = identity.sign_bytes(msg);
    let pubkey = identity.public_key_bytes();
    assert!(verify_signature(&pubkey, msg, &sig).is_ok());
}

#[test]
fn verify_wrong_message() {
    let identity = Identity::generate().unwrap();
    let sig = identity.sign_bytes(b"original");
    let pubkey = identity.public_key_bytes();
    assert!(verify_signature(&pubkey, b"tampered", &sig).is_err());
}

#[test]
fn verify_wrong_key() {
    let identity1 = Identity::generate().unwrap();
    let identity2 = Identity::generate().unwrap();
    let sig = identity1.sign_bytes(b"hello");
    let wrong_pubkey = identity2.public_key_bytes();
    assert!(verify_signature(&wrong_pubkey, b"hello", &sig).is_err());
}

#[test]
fn signature_errors_are_told_apart() {
    let identity = Identity::from_seed(&[1u8; 32]);
    let sig = identity.sign_bytes(b"m");
    assert_eq!(
        verify_signature(&identity.public_key_bytes(), b"n", &sig),
        Err(VerifyError::InvalidSignature)
    );
    // A value of y without a point on the curve.
    let mut no_key = [0u8; 32];
    no_key[0] = 2;
    assert_eq!(
        verify_signature(&no_key, b"m", &sig),
        Err(VerifyError::InvalidAuthorKey)
    );
    assert_eq!(
        VerifyError::InvalidAuthorKey.to_string(),
        "invalid author key"
    );
    assert_eq!(
        VerifyError::InvalidSignature.to_string(),
        "invalid signature"
    );
    assert_eq!(
        IdentityError::RngUnavailable,
        IdentityError::RngUnavailable
    );
}

#[test]
fn known_key_and_signature() {
    let seed: [u8; 32] = [
        0x9d, 0x61, 0xb1, 0x9d, 0xef, 0xfd, 0x5a, 0x60, 0xba, 0x84, 0x4a, 0xf4, 0x92, 0xec, 0x2c,
        0xc4, 0x44, 0x49, 0xc5, 0x69, 0x7b, 0x32, 0x69, 0x19, 0x70, 0x3b, 0xac, 0x03, 0x1c, 0xae,
        0x7f, 0x60,
    ];
    let identity = Identity::from_seed(&seed);
    assert_eq!(identity.seed_bytes(), seed);
    assert_eq!(&identity.public_key_bytes()[..4], &[0xd7, 0x5a, 0x98, 0x01]);
    assert_eq!(&identity.sign_bytes(b"")[..4], &[0xe5, 0x56, 0x43, 0x00]);
}

// Links

#[test]
fn chain_link_valid() {
    let identity = Identity::generate().unwrap();
    let author = identity.public_key_bytes();
    let chain = build_chain(&identity, 3);
    for (i, (_, envelope)) in chain.iter().enumerate() {
        assert!(verify_chain_link(envelope, &author, i as u64).is_ok());
    }
}

#[test]
fn chain_link_wrong_seq() {
    let identity = Identity::generate().unwrap();
    let author = identity.public_key_bytes();
    let mut chain = build_chain(&identity, 3);
    chain[1].1.payload.seq = 99;
    assert!(matches!(
        verify_chain_link(&chain[1].1, &author, 1),
        Err(ChainError::WrongSeq {
            expected: 1,
            got: 99
        })
    ));
}

#[test]
fn chain_link_wrong_author() {
    let identity = Identity::generate().unwrap();
    let other = Identity::generate().unwrap();
    let chain = build_chain(&identity, 1);
    assert!(matches!(
        verify_chain_link(&chain[0].1, &other.public_key_bytes(), 0),
        Err(ChainError::WrongAuthor)
    ));
}

#[test]
fn chain_link_genesis_with_prev() {
    let identity = Identity::generate().unwrap();
    let author = identity.public_key_bytes();
    let mut chain = build_chain(&identity, 2);
    let dummy_cid = bytes_to_cid(b"dummy");
    chain[0].1.payload.prev = Some(dummy_cid);
    assert!(matches!(
        verify_chain_link(&chain[0].1, &author, 0),
        Err(ChainError::BrokenPrev)
    ));
}

#[test]
fn chain_link_non_genesis_without_prev() {
    let identity = Identity::generate().unwrap();
    let author = identity.public_key_bytes();
    let mut chain = build_chain(&identity, 2);
    chain[1].1.payload.prev = None;
    assert!(matches!(
        verify_chain_link(&chain[1].1, &author, 1),
        Err(ChainError::BrokenPrev)
    ));
}

#[test]
fn chain_errors_have_messages() {
    assert_eq!(
        ChainError::WrongSeq {
            expected: 3,
            got: 10
        }
        .to_string(),
        "wrong seq: expected 3, got 10"
    );
    assert_eq!(
        ChainError::WrongAuthor.to_string(),
        "author does not match chain owner"
    );
    assert_eq!(
        ChainError::BrokenPrev.to_string(),
        "genesis/prev mismatch"
    );
}

// Folding

#[test]
fn fold_empty() {
    let state = fold(&[]);
    assert!(state.posts.is_empty());
    assert!(state.profile.is_none());
    assert!(state.following.is_empty());
}

#[test]
fn fold_post() {
    let identity = Identity::generate().unwrap();
    let chain = make_chain(
        &identity,
        vec![EventKind::Post {
            text: "hi".to_string(),
        }],
    );
    let state = fold(&chain);
    assert_eq!(state.posts.len(), 1);
    let entry = &state.posts[0];
    assert_eq!(entry.text, "hi");
    assert!(!entry.deleted);
}

#[test]
fn fold_edit_last_write_wins() {
    let identity = Identity::generate().unwrap();
    let mut pairs: Vec<(Cid, EventEnvelope)> = Vec::new();

    let post_env = post(&identity, 0, None, "original");
    let post_cid = envelope_cid(&post_env);
    pairs.push((post_cid.clone(), post_env));

    let edit1 = create_envelope(
        &identity,
        1,
        Some(post_cid.clone()),
        EventKind::Edit {
            text: "edit1".to_string(),
            target: post_cid.clone(),
        },
    )
    .unwrap();
    let edit1_cid = envelope_cid(&edit1);
    pairs.push((edit1_cid.clone(), edit1));

    let edit2 = create_envelope(
        &identity,
        2,
        Some(edit1_cid.clone()),
        EventKind::Edit {
            text: "edit2".to_string(),
            target: post_cid.clone(),
        },
    )
    .unwrap();
    let edit2_cid = envelope_cid(&edit2);
    pairs.push((edit2_cid, edit2));

    let state = fold(&pairs);
    let entry = state.post(&post_cid).unwrap();
    assert_eq!(entry.text, "edit2");
    assert_eq!(entry.latest_edit_seq, 2);
}

#[test]
fn fold_delete() {
    let identity = Identity::generate().unwrap();
    let mut pairs: Vec<(Cid, EventEnvelope)> = Vec::new();

    let post_env = post(&identity, 0, None, "bye");
    let post_cid = envelope_cid(&post_env);
    pairs.push((post_cid.clone(), post_env));

    let delete_env = create_envelope(
        &identity,
        1,
        Some(post_cid.clone()),
        EventKind::Delete {
            target: post_cid.clone(),
        },
    )
    .unwrap();
    let delete_cid = envelope_cid(&delete_env);
    pairs.push((delete_cid, delete_env));

    let state = fold(&pairs);
    let entry = state.post(&post_cid).unwrap();
    assert!(entry.deleted);
}

#[test]
fn fold_profile_latest_wins() {
    let identity = Identity::generate().unwrap();
    let chain = make_chain(
        &identity,
        vec![
            EventKind::Profile {
                display_name: "old".to_string(),
                bio: "bio1".to_string(),
                avatar_cid: None,
            },
            EventKind::Profile {
                display_name: "new".to_string(),
                bio: "bio2".to_string(),
                avatar_cid: None,
            },
        ],
    );
    let state = fold(&chain);
    let (seq, profile) = state.profile.unwrap();
    assert_eq!(seq, 1);
    assert_eq!(profile.display_name, "new");
}

#[test]
fn fold_follow() {
    let identity = Identity::generate().unwrap();
    let other = Identity::generate().unwrap();
    let other_key = other.public_key_bytes();

    let chain = make_chain(
        &identity,
        vec![
            EventKind::Follow {
                added: vec![other_key],
                removed: vec![],
            },
            EventKind::Follow {
                added: vec![],
                removed: vec![other_key],
            },
        ],
    );
    let state = fold(&chain);
    assert!(!state.following.contains(&other_key));
}

#[test]
fn fold_keeps_follows_once() {
    let identity = Identity::from_seed(&[9u8; 32]);
    let chain = make_chain(
        &identity,
        vec![
            EventKind::Follow {
                added: vec![[1u8; 32], [2u8; 32], [1u8; 32]],
                removed: vec![],
            },
            EventKind::Follow {
                added: vec![[3u8; 32]],
                removed: vec![[2u8; 32], [8u8; 32]],
            },
        ],
    );
    let state = fold(&chain);
    assert_eq!(state.following.len(), 2);
    assert!(state.following.contains(&[1u8; 32]));
    assert!(state.following.contains(&[3u8; 32]));
}

#[test]
fn fold_ignores_edits_of_other_authors() {
    let alice = Identity::generate().unwrap();
    let mallory = Identity::generate().unwrap();
    let post_env = post(&alice, 0, None, "mine");
    let post_cid = envelope_cid(&post_env);
    let edit = create_envelope(
        &mallory,
        1,
        Some(post_cid.clone()),
        EventKind::Edit {
            text: "yours".to_string(),
            target: post_cid.clone(),
        },
    )
    .unwrap();
    let delete = create_envelope(
        &mallory,
        2,
        Some(post_cid.clone()),
        EventKind::Delete {
            target: post_cid.clone(),
        },
    )
    .unwrap();
    let state = fold(&[
        (post_cid.clone(), post_env),
        (envelope_cid(&edit), edit),
        (envelope_cid(&delete), delete),
    ]);
    let entry = state.post(&post_cid).unwrap();
    assert_eq!(entry.text, "mine");
    assert!(!entry.deleted);
    assert_eq!(entry.latest_edit_seq, 0);
    assert!(state.post(&bytes_to_cid(b"elsewhere")).is_none());
}
