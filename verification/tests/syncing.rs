use deilephila::app::{handle_head_received, HeadReceived};
use deilephila::cid::{bytes_to_cid, Cid};
use deilephila::event::{envelope_cid, envelope_to_dag_cbor, EventEnvelope, EventKind};
use deilephila::head::{create_ipns_record, IpnsRecord, RECORD_LIFETIME_MS};
use deilephila::identity::{create_envelope, Identity};
use deilephila::network::event_loop::{handle_gossip, handle_inbound_put};
use deilephila::network::ipns::DhtRecord;
use deilephila::network::{publish_head_record, resolve_ipns};
use deilephila::store::Store;
use deilephila::sync::{
    handle_head_record, handle_head_record_with_limits, SyncError, SyncLimits, SyncOutcome,
    SyncStep,
};
use deilephila::util::{bytes_to_hex, far_future_ms, now_ms};

fn make_record_pointing(identity: &Identity, sequence: u64, head_cid: Cid) -> IpnsRecord {
    create_ipns_record(
        identity,
        sequence,
        head_cid,
        far_future_ms().unwrap(),
        None,
        String::new(),
    )
}

fn make_record(identity: &Identity, sequence: u64) -> IpnsRecord {
    create_ipns_record(
        identity,
        sequence,
        bytes_to_cid(b"head block"),
        far_future_ms().unwrap(),
        Some(bytes_to_cid(b"profile block")),
        "Alice".to_string(),
    )
}

fn post(identity: &Identity, seq: u64, prev: Option<Cid>, text: &str) -> EventEnvelope {
    create_envelope(
        identity,
        seq,
        prev,
        EventKind::Post {
            text: text.to_string(),
        },
    )
    .unwrap()
}

fn make_post_chain(id: &Identity, n: u64) -> Vec<EventEnvelope> {
    let mut prev: Option<Cid> = None;
    let mut chain = Vec::new();
    for seq in 0..n {
        let e = post(id, seq, prev, &format!("post {seq}"));
        prev = Some(envelope_cid(&e));
        chain.push(e);
    }
    chain
}

/// Two posts and an edit of the first.
fn seed_chain(store: &mut Store) -> (Identity, Cid, u64) {
    let id = Identity::generate().unwrap();
    let e0 = post(&id, 0, None, "first");
    let c0 = envelope_cid(&e0);
    let e1 = post(&id, 1, Some(c0.clone()), "second");
    let c1 = envelope_cid(&e1);
    let e2 = create_envelope(
        &id,
        2,
        Some(c1),
        EventKind::Edit {
            target: c0,
            text: "first (edited)".to_string(),
        },
    )
    .unwrap();
    let c2 = envelope_cid(&e2);
    for e in [&e0, &e1, &e2] {
        store.insert_event(e, 1);
    }
    (id, c2, 2)
}

/// Runs a session against a peer that answers from its store.
fn drive(first: SyncStep, store: &mut Store, peer: &Store) -> Result<SyncOutcome, SyncError> {
    let now = now_ms().unwrap();
    let mut step = first;
    loop {
        match step {
            SyncStep::Fetch(session) => {
                let block = peer.block_of(&session.wanted());
                step = session.resume(store, block.as_deref(), now);
            }
            SyncStep::Done(result) => return result,
        }
    }
}

fn sync(
    store: &mut Store,
    peer: &Store,
    record: &IpnsRecord,
    limits: &SyncLimits,
) -> Result<SyncOutcome, SyncError> {
    let step = handle_head_record_with_limits(store, record, limits, now_ms().unwrap());
    drive(step, store, peer)
}

fn sync_default(
    store: &mut Store,
    peer: &Store,
    record: &IpnsRecord,
) -> Result<SyncOutcome, SyncError> {
    let step = handle_head_record(store, record, now_ms().unwrap());
    drive(step, store, peer)
}

#[test]
fn full_chain_sync_via_gossipsub() {
    let mut store_a = Store::open_in_memory();
    let (identity_a, head_cid, head_seq) = seed_chain(&mut store_a);
    let pubkey_hex = bytes_to_hex(&identity_a.public_key_bytes());
    let now = now_ms().unwrap();
    let record = create_ipns_record(
        &identity_a,
        head_seq,
        head_cid.clone(),
        now + RECORD_LIFETIME_MS,
        None,
        "Alice".to_string(),
    );

    // B hears of the record on the topic of A.
    let published = publish_head_record(&record, now);
    let record = handle_gossip(&published.topic, &published.data).unwrap();
    let mut store_b = Store::open_in_memory();
    let outcome = sync_default(&mut store_b, &store_a, &record).unwrap();
    assert_eq!(outcome.new_events, 3);
    assert!(outcome.completed);

    let posts = store_b.get_posts_by_author(&pubkey_hex);
    assert_eq!(posts.len(), 2);
    let edited = posts
        .iter()
        .find(|p| p.edited)
        .expect("edited post missing");
    assert_eq!(edited.text, "first (edited)");

    let account = store_b.get_account(&pubkey_hex).unwrap();
    assert_eq!(account.latest_head_cid, Some(head_cid.to_string()));

    let (stored_seq, _) = store_b.get_head_record(&pubkey_hex).unwrap();
    assert_eq!(stored_seq, head_seq);
    assert_eq!(account.display_name, "Alice");
}

#[test]
fn tampered_record_rejected() {
    let mut store = Store::open_in_memory();
    let id = Identity::generate().unwrap();
    let mut record = make_record_pointing(&id, 5, bytes_to_cid(b"head"));
    record.payload.sequence = 6;

    let err = sync_default(&mut store, &Store::open_in_memory(), &record).unwrap_err();
    assert!(matches!(err, SyncError::InvalidSignature));

    let author_hex = bytes_to_hex(&id.public_key_bytes());
    assert!(store.get_head(&author_hex).is_none());
    assert!(store.get_head_record(&author_hex).is_none());
}

#[test]
fn stale_record_is_noop() {
    let mut store = Store::open_in_memory();
    let (id, head_cid, head_seq) = seed_chain(&mut store);

    // No block is asked for.
    let record = make_record_pointing(&id, head_seq, head_cid);
    let step = handle_head_record(&mut store, &record, 1);
    let outcome = match step {
        SyncStep::Done(result) => result.unwrap(),
        SyncStep::Fetch(_) => panic!("nothing is to be fetched"),
    };
    assert_eq!(outcome.new_events, 0);
    assert!(outcome.completed);

    let author_hex = bytes_to_hex(&id.public_key_bytes());
    let state = store.get_sync_state(&author_hex).unwrap();
    assert!(state.completed);
}

#[test]
fn unavailable_block_keeps_record() {
    let mut store = Store::open_in_memory();
    let id = Identity::generate().unwrap();
    let record = make_record_pointing(&id, 0, bytes_to_cid(b"missing"));

    let outcome = sync_default(&mut store, &Store::open_in_memory(), &record).unwrap();
    assert_eq!(outcome.new_events, 0);
    assert!(!outcome.completed);

    let author_hex = bytes_to_hex(&id.public_key_bytes());
    assert!(store.get_head_record(&author_hex).is_some());

    let state = store.get_sync_state(&author_hex).unwrap();
    assert!(!state.completed);

    let account = store.get_account(&author_hex);
    assert!(account.is_none() || account.unwrap().latest_head_cid.is_none());
}

#[test]
fn late_follower_syncs_via_dht() {
    let mut store_a = Store::open_in_memory();
    let (identity_a, head_cid, head_seq) = seed_chain(&mut store_a);
    let pubkey_hex = bytes_to_hex(&identity_a.public_key_bytes());
    let now = now_ms().unwrap();
    let record = create_ipns_record(
        &identity_a,
        head_seq,
        head_cid.clone(),
        now + RECORD_LIFETIME_MS,
        None,
        "Alice".to_string(),
    );

    // The hash table keeps the record, and B finds it there later.
    let published = publish_head_record(&record, now);
    let put = DhtRecord {
        key: published.key,
        value: published.data,
    };
    let kept = handle_inbound_put(&put, None, now).unwrap();
    let candidates = vec![deilephila::head::record_from_bytes(&kept.value).unwrap()];
    let resolved = resolve_ipns(&identity_a.public_key_bytes(), &candidates)
        .expect("record not resolvable via DHT");

    let mut store_b = Store::open_in_memory();
    let outcome = sync_default(&mut store_b, &store_a, &resolved).unwrap();
    assert_eq!(outcome.new_events, 3);
    assert!(outcome.completed);

    let posts = store_b.get_posts_by_author(&pubkey_hex);
    assert_eq!(posts.len(), 2);
    let account = store_b.get_account(&pubkey_hex).unwrap();
    assert_eq!(account.latest_head_cid, Some(head_cid.to_string()));
    assert_eq!(account.display_name, "Alice");
}

#[test]
fn window_limits_backfill_depth() {
    let mut store_a = Store::open_in_memory();
    let id = Identity::generate().unwrap();
    let pubkey_hex = bytes_to_hex(&id.public_key_bytes());
    let chain = make_post_chain(&id, 8);
    for e in &chain {
        store_a.insert_event(e, 1);
    }
    let head_cid = envelope_cid(chain.last().unwrap());

    let mut store_b = Store::open_in_memory();
    let record = make_record_pointing(&id, 7, head_cid);
    let limits = SyncLimits {
        window: 5,
        ..SyncLimits::default()
    };
    let outcome = sync(&mut store_b, &store_a, &record, &limits).unwrap();

    assert_eq!(outcome.new_events, 5);
    assert!(outcome.completed);
    let posts = store_b.get_posts_by_author(&pubkey_hex);
    assert_eq!(posts.len(), 5);
    assert!(posts.iter().all(|p| p.text != "post 0"));

    let state = store_b.get_sync_state(&pubkey_hex).unwrap();
    assert_eq!(state.window_floor_seq, 3);
    assert_eq!(state.cursor_seq, Some(3));
    assert!(state.completed);
}

#[test]
fn chunked_insert_applies_edit_across_chunks() {
    let mut store_a = Store::open_in_memory();
    let id = Identity::generate().unwrap();
    let pubkey_hex = bytes_to_hex(&id.public_key_bytes());

    let e0 = post(&id, 0, None, "original");
    let c0 = envelope_cid(&e0);
    let e1 = post(&id, 1, Some(c0.clone()), "post 1");
    let mut chain = vec![e0, e1];
    let e2 = create_envelope(
        &id,
        2,
        Some(envelope_cid(&chain[1])),
        EventKind::Edit {
            target: c0.clone(),
            text: "edited".to_string(),
        },
    )
    .unwrap();
    chain.push(e2);
    for seq in 3..7u64 {
        let prev = Some(envelope_cid(chain.last().unwrap()));
        chain.push(post(&id, seq, prev, &format!("post {seq}")));
    }
    for e in &chain {
        store_a.insert_event(e, 1);
    }
    let head_cid = envelope_cid(chain.last().unwrap());

    // The edit is kept before the post that it is about.
    let mut store_b = Store::open_in_memory();
    let record = make_record_pointing(&id, 6, head_cid);
    let limits = SyncLimits {
        chunk: 2,
        ..SyncLimits::default()
    };
    let outcome = sync(&mut store_b, &store_a, &record, &limits).unwrap();
    assert_eq!(outcome.new_events, 7);
    assert!(outcome.completed);

    let posts = store_b.get_posts_by_author(&pubkey_hex);
    let edited = posts
        .iter()
        .find(|p| p.cid == c0.to_string())
        .expect("post 0 missing");
    assert_eq!(edited.text, "edited");
    assert!(edited.edited);
}

#[test]
fn partial_sync_resumes_after_gap_filled() {
    let mut store_a = Store::open_in_memory();
    let id = Identity::generate().unwrap();
    let pubkey_hex = bytes_to_hex(&id.public_key_bytes());
    let chain = make_post_chain(&id, 8);
    for e in &chain[3..] {
        store_a.insert_event(e, 1);
    }
    let head_cid = envelope_cid(&chain[7]);

    let mut store_b = Store::open_in_memory();
    let record = make_record_pointing(&id, 7, head_cid);
    let outcome = sync_default(&mut store_b, &store_a, &record).unwrap();

    assert_eq!(outcome.new_events, 5);
    assert!(!outcome.completed);
    assert_eq!(store_b.get_posts_by_author(&pubkey_hex).len(), 5);

    for e in &chain[..3] {
        store_a.insert_event(e, 1);
    }

    let outcome = sync_default(&mut store_b, &store_a, &record).unwrap();
    assert_eq!(outcome.new_events, 3);
    assert!(outcome.completed);
    assert_eq!(store_b.get_posts_by_author(&pubkey_hex).len(), 8);
}

#[test]
fn new_head_during_incomplete_sync_catches_up_both_ends() {
    let mut store_a = Store::open_in_memory();
    let id = Identity::generate().unwrap();
    let pubkey_hex = bytes_to_hex(&id.public_key_bytes());
    let chain = make_post_chain(&id, 10);
    for e in &chain[3..8] {
        store_a.insert_event(e, 1);
    }

    let mut store_b = Store::open_in_memory();
    let record7 = make_record_pointing(&id, 7, envelope_cid(&chain[7]));
    let o1 = sync_default(&mut store_b, &store_a, &record7).unwrap();
    assert_eq!(o1.new_events, 5);
    assert!(!o1.completed);

    for e in chain[..3].iter().chain(&chain[8..]) {
        store_a.insert_event(e, 1);
    }

    let record9 = make_record_pointing(&id, 9, envelope_cid(&chain[9]));
    let o2 = sync_default(&mut store_b, &store_a, &record9).unwrap();
    assert_eq!(o2.new_events, 5);
    assert!(o2.completed);
    assert_eq!(store_b.get_posts_by_author(&pubkey_hex).len(), 10);
}

#[test]
fn forked_chain_is_recorded_and_sync_continues() {
    let mut store_a = Store::open_in_memory();
    let id = Identity::generate().unwrap();
    let author_hex = bytes_to_hex(&id.public_key_bytes());
    let e0 = post(&id, 0, None, "genesis");
    let c0 = envelope_cid(&e0);
    let branch_a = post(&id, 1, Some(c0.clone()), "branch a");
    let branch_b = post(&id, 1, Some(c0), "branch b");
    for e in [&e0, &branch_a, &branch_b] {
        store_a.insert_event(e, 1);
    }

    let mut store_b = Store::open_in_memory();
    let record_a = make_record_pointing(&id, 1, envelope_cid(&branch_a));
    let o1 = sync_default(&mut store_b, &store_a, &record_a).unwrap();
    assert_eq!(o1.new_events, 2);
    assert!(o1.completed);
    assert_eq!(o1.forks_detected, 0);
    assert!(store_b.list_forks(None).is_empty());

    let record_b = make_record_pointing(&id, 1, envelope_cid(&branch_b));
    let o2 = sync_default(&mut store_b, &store_a, &record_b).unwrap();
    assert_eq!(o2.new_events, 1);
    assert!(o2.completed);
    assert_eq!(o2.forks_detected, 2);

    let forks = store_b.list_forks(Some(&author_hex));
    assert!(forks.iter().any(|f| f.layer == "head" && f.seq == 1));
    assert!(forks.iter().any(|f| f.layer == "event" && f.seq == 1));
    assert_eq!(forks.len(), 2);

    let posts = store_b.get_posts_by_author(&author_hex);
    assert_eq!(posts.len(), 3);
}

#[test]
fn budget_halts_and_resumes() {
    let mut store_a = Store::open_in_memory();
    let id = Identity::generate().unwrap();
    let pubkey_hex = bytes_to_hex(&id.public_key_bytes());
    let chain = make_post_chain(&id, 8);
    for e in &chain {
        store_a.insert_event(e, 1);
    }
    let head_cid = envelope_cid(&chain[7]);

    let mut store_b = Store::open_in_memory();
    let record = make_record_pointing(&id, 7, head_cid);
    let limits = SyncLimits {
        budget: 3,
        ..SyncLimits::default()
    };

    let o1 = sync(&mut store_b, &store_a, &record, &limits).unwrap();
    assert_eq!(o1.new_events, 3);
    assert!(!o1.completed);

    let o2 = sync(&mut store_b, &store_a, &record, &limits).unwrap();
    assert_eq!(o2.new_events, 3);
    assert!(!o2.completed);

    let o3 = sync(&mut store_b, &store_a, &record, &limits).unwrap();
    assert_eq!(o3.new_events, 2);
    assert!(o3.completed);
    assert_eq!(store_b.get_posts_by_author(&pubkey_hex).len(), 8);
}

#[test]
fn record_from_unfollowed_author_ignored() {
    let mut store = Store::open_in_memory();
    let stranger = Identity::generate().unwrap();
    let record = make_record(&stranger, 1);

    let received = handle_head_received(&mut store, &record, 1);
    assert!(matches!(received, HeadReceived::Ignored));

    let author_hex = bytes_to_hex(&stranger.public_key_bytes());
    assert!(store.get_head_record(&author_hex).is_none());
    assert!(store.get_account(&author_hex).is_none());
}

#[test]
fn record_from_followed_author_processed() {
    let mut store = Store::open_in_memory();
    let followee = Identity::generate().unwrap();
    let author_hex = bytes_to_hex(&followee.public_key_bytes());
    let record = make_record(&followee, 1);

    store.add_follow(&author_hex, now_ms().unwrap());
    match handle_head_received(&mut store, &record, 1) {
        HeadReceived::Sync(step) => {
            drive(step, &mut store, &Store::open_in_memory()).unwrap();
        }
        HeadReceived::Ignored => panic!("the account is followed"),
    }

    let (seq, _) = store.get_head_record(&author_hex).unwrap();
    assert_eq!(seq, 1);
    let account = store.get_account(&author_hex).unwrap();
    assert_eq!(account.display_name, "Alice");
}

#[test]
fn limits_by_default() {
    let limits = SyncLimits::default();
    assert_eq!(limits.window, 500);
    assert_eq!(limits.chunk, 100);
    assert_eq!(limits.budget, 1_000);
    assert_eq!(
        SyncOutcome::default(),
        SyncOutcome {
            new_events: 0,
            completed: false,
            forks_detected: 0
        }
    );
}

/// Answers the first request of a session with a block.
fn answer_with(record: &IpnsRecord, block: &[u8]) -> Result<SyncOutcome, SyncError> {
    let mut store = Store::open_in_memory();
    let step = handle_head_record(&mut store, record, 1);
    match step {
        SyncStep::Fetch(session) => match session.resume(&mut store, Some(block), 1) {
            SyncStep::Done(result) => result,
            SyncStep::Fetch(_) => panic!("the block was taken"),
        },
        SyncStep::Done(_) => panic!("nothing was asked"),
    }
}

#[test]
fn bad_blocks_are_told_apart() {
    let id = Identity::from_seed(&[1u8; 32]);
    let other = Identity::from_seed(&[2u8; 32]);
    let head = bytes_to_cid(b"wanted");
    let record = make_record_pointing(&id, 3, head.clone());
    let cid_text = head.to_string();

    let e = answer_with(&record, &[0xa0]).unwrap_err();
    assert_eq!(e, SyncError::Decode("not an event".to_string()));
    assert_eq!(e.to_string(), "decode error: not an event");

    let mut forged = post(&id, 3, Some(head.clone()), "x");
    forged.signature = [0u8; 64];
    let e = answer_with(&record, &envelope_to_dag_cbor(&forged)).unwrap_err();
    assert_eq!(e, SyncError::InvalidSignature);
    assert_eq!(e.to_string(), "invalid signature");

    let theirs = post(&other, 3, Some(head.clone()), "x");
    let e = answer_with(&record, &envelope_to_dag_cbor(&theirs)).unwrap_err();
    assert_eq!(e, SyncError::AuthorMismatch { cid: head.clone() });
    assert_eq!(e.to_string(), format!("author mismatch at {cid_text}"));

    let skipped = post(&id, 2, Some(head.clone()), "x");
    let e = answer_with(&record, &envelope_to_dag_cbor(&skipped)).unwrap_err();
    assert_eq!(
        e,
        SyncError::SeqMismatch {
            cid: head.clone(),
            expected: 3,
            got: 2
        }
    );
    assert_eq!(
        e.to_string(),
        format!("seq mismatch at {cid_text}: expected 3, got 2")
    );

    let loose = post(&id, 3, None, "x");
    let e = answer_with(&record, &envelope_to_dag_cbor(&loose)).unwrap_err();
    assert_eq!(e, SyncError::BrokenChain { cid: head });
    assert_eq!(e.to_string(), format!("broken chain at {cid_text}"));
}

#[test]
fn good_events_stay_though_a_later_block_is_bad() {
    let id = Identity::generate().unwrap();
    let key = bytes_to_hex(&id.public_key_bytes());
    let chain = make_post_chain(&id, 3);
    let record = make_record_pointing(&id, 2, envelope_cid(&chain[2]));
    let mut store = Store::open_in_memory();
    let session = match handle_head_record(&mut store, &record, 1) {
        SyncStep::Fetch(session) => session,
        SyncStep::Done(_) => panic!("nothing was asked"),
    };
    assert_eq!(session.wanted(), envelope_cid(&chain[2]));
    let block = envelope_to_dag_cbor(&chain[2]);
    let session = match session.resume(&mut store, Some(&block), 1) {
        SyncStep::Fetch(session) => session,
        SyncStep::Done(_) => panic!("one more is to be asked for"),
    };
    assert_eq!(session.wanted(), envelope_cid(&chain[1]));
    // The wrong block for the place.
    let block = envelope_to_dag_cbor(&chain[0]);
    match session.resume(&mut store, Some(&block), 1) {
        SyncStep::Done(result) => assert!(matches!(
            result,
            Err(SyncError::SeqMismatch {
                expected: 1,
                got: 0,
                ..
            })
        )),
        SyncStep::Fetch(_) => panic!("the block was taken"),
    }
    let posts = store.get_posts_by_author(&key);
    assert_eq!(posts.len(), 1);
    assert_eq!(posts[0].text, "post 2");
    let state = store.get_sync_state(&key).unwrap();
    assert_eq!(state.cursor_seq, Some(2));
    assert!(!state.completed);
}

#[test]
fn floor_stays_once_events_are_there() {
    let mut store_a = Store::open_in_memory();
    let id = Identity::generate().unwrap();
    let key = bytes_to_hex(&id.public_key_bytes());
    let chain = make_post_chain(&id, 8);
    for e in &chain {
        store_a.insert_event(e, 1);
    }
    let limits = SyncLimits {
        window: 2,
        ..SyncLimits::default()
    };
    let mut store_b = Store::open_in_memory();
    let early = make_record_pointing(&id, 3, envelope_cid(&chain[3]));
    let o = sync(&mut store_b, &store_a, &early, &limits).unwrap();
    assert_eq!(o.new_events, 2);
    assert_eq!(store_b.get_sync_state(&key).unwrap().window_floor_seq, 2);
    // A later record brings everything above.
    let late = make_record_pointing(&id, 7, envelope_cid(&chain[7]));
    let o = sync(&mut store_b, &store_a, &late, &limits).unwrap();
    assert_eq!(o.new_events, 4);
    assert!(o.completed);
    assert_eq!(store_b.get_sync_state(&key).unwrap().window_floor_seq, 2);
}
