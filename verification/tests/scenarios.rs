//! Several nodes in one process, from setting up an account to reading the timeline.

use std::collections::HashMap;

use deilephila::app::{
    after_sync_attempt, create_post, follow_user, get_app_status, get_follows, get_forks,
    get_my_posts, get_timeline, handle_head_received, normalize_pubkey_hex, republish_head,
    setup_account, sync_attempt_delay, sync_follow_target, timeline_changed, unfollow_user,
    unlock_account, ActiveAccount, AppError, FollowSync, HeadReceived, PostView,
    REPUBLISH_INTERVAL_SECS,
};
use deilephila::cid::Cid;
use deilephila::event::{envelope_cid, EventKind};
use deilephila::head::{
    create_ipns_record, feed_topic_str, record_from_bytes, IpnsRecord, RECORD_LIFETIME_MS,
};
use deilephila::identity::{create_envelope, Identity};
use deilephila::keystore::KeystoreError;
use deilephila::network::event_loop::{
    answer_want_block, block_candidates, collect_candidate, handle_block_response, handle_gossip,
    handle_inbound_put, request_block_from_next, BlockStep,
};
use deilephila::network::ipns::{head_record_key, DhtRecord};
use deilephila::network::{publish_head_record, resolve_ipns};
use deilephila::store::{Store, StoreError, TimelineRow};
use deilephila::sync::{SyncError, SyncOutcome, SyncStep};
use deilephila::util::{bytes_to_hex, hex_to_pubkey};

struct Node {
    store: Store,
    account: Option<ActiveAccount>,
    keystore: Option<Vec<u8>>,
    topics: Vec<String>,
    dht: HashMap<Vec<u8>, Vec<u8>>,
}

impl Node {
    fn new() -> Node {
        Node {
            store: Store::open_in_memory(),
            account: None,
            keystore: None,
            topics: Vec::new(),
            dht: HashMap::new(),
        }
    }

    fn setup(&mut self, passphrase: &str) -> String {
        let (account, pubkey, blob) =
            setup_account(self.keystore.is_some(), passphrase).unwrap();
        self.account = Some(account);
        self.keystore = Some(blob);
        pubkey
    }

    /// What is left after the program ends.
    fn restart(self) -> Node {
        Node {
            store: self.store,
            account: None,
            keystore: self.keystore,
            topics: Vec::new(),
            dht: HashMap::new(),
        }
    }

    fn follow(&mut self, pubkey: &str, now: i64) -> Result<(), AppError> {
        let key = follow_user(&self.account, &mut self.store, pubkey, now)?;
        self.topics.push(feed_topic_str(&key));
        Ok(())
    }

    fn timeline(&self) -> Vec<PostView> {
        get_timeline(&self.account, &self.store).unwrap()
    }

    fn texts(&self) -> Vec<String> {
        self.timeline().into_iter().map(|p| p.text).collect()
    }
}

/// Asks the peers of a node for a block.
fn get_block(cid: Cid, peers: &[&Node]) -> Option<Vec<u8>> {
    let names: Vec<Vec<u8>> = (0..peers.len()).map(|i| vec![i as u8]).collect();
    let mut step = request_block_from_next(cid, block_candidates(&None, &names));
    loop {
        match step {
            BlockStep::Ask {
                peer,
                request,
                pending,
            } => {
                let response = answer_want_block(&peers[peer[0] as usize].store, &request);
                step = handle_block_response(pending, response);
            }
            BlockStep::Deliver { data } => return Some(data),
            BlockStep::GiveUp => return None,
        }
    }
}

fn drive(
    first: SyncStep,
    store: &mut Store,
    peers: &[&Node],
    now: i64,
) -> Result<SyncOutcome, SyncError> {
    let mut step = first;
    loop {
        match step {
            SyncStep::Fetch(session) => {
                let block = get_block(session.wanted(), peers);
                step = session.resume(store, block.as_deref(), now);
            }
            SyncStep::Done(result) => return result,
        }
    }
}

/// Publishes a record to a connected node: announced, if it subscribed, and put.
fn publish(record: &IpnsRecord, from: &mut Node, to: &mut Node, now: i64) {
    let p = publish_head_record(record, now);
    from.dht.insert(p.key.clone(), p.data.clone());
    let put = DhtRecord {
        key: p.key.clone(),
        value: p.data.clone(),
    };
    let existing = to.dht.get(&p.key).cloned();
    if let Ok(accepted) = handle_inbound_put(&put, existing.as_deref(), now) {
        to.dht.insert(accepted.key, accepted.value);
    }
    if to.topics.contains(&p.topic) {
        let record = handle_gossip(&p.topic, &p.data).unwrap();
        if let HeadReceived::Sync(step) = handle_head_received(&mut to.store, &record, now) {
            let outcome = drive(step, &mut to.store, &[from], now).unwrap();
            assert!(timeline_changed(&outcome) == (outcome.new_events > 0));
        }
    }
}

fn resolve(pubkey_hex: &str, nodes: &[&Node]) -> Option<IpnsRecord> {
    let pubkey = hex_to_pubkey(pubkey_hex).unwrap();
    let key = head_record_key(&pubkey);
    let mut candidates: Vec<IpnsRecord> = Vec::new();
    for node in nodes {
        if let Some(value) = node.dht.get(&key) {
            collect_candidate(&mut candidates, value);
        }
    }
    resolve_ipns(&pubkey, &candidates)
}

#[test]
fn realtime_sync_after_follow() {
    let mut a = Node::new();
    let pk_a = a.setup("pass-a");
    create_post(&mut a.account, &mut a.store, "first".to_string(), 10).unwrap();

    let mut b = Node::new();
    b.setup("pass-b");
    b.follow(&pk_a, 15).unwrap();

    let made = create_post(&mut a.account, &mut a.store, "second".to_string(), 20).unwrap();
    publish(&made.record, &mut a, &mut b, 20);

    let timeline = b.timeline();
    assert_eq!(timeline.len(), 2);
    assert_eq!(timeline[0].text, "second");
    assert_eq!(timeline[1].text, "first");
    assert!(timeline.iter().all(|p| p.author == pk_a));

    let follows = get_follows(&b.store);
    assert_eq!(follows.len(), 1);
    assert_eq!(follows[0].pubkey, pk_a);
}

#[test]
fn late_follower_catches_up_via_dht() {
    let mut a = Node::new();
    let pk_a = a.setup("pass-a");
    for (i, text) in ["one", "two", "three"].iter().enumerate() {
        create_post(&mut a.account, &mut a.store, text.to_string(), i as i64).unwrap();
    }

    let mut b = Node::new();
    b.setup("pass-b");

    let record = republish_head(&a.account, &mut a.store, 50).unwrap();
    publish(&record, &mut a, &mut b, 50);

    b.follow(&pk_a, 60).unwrap();
    let resolved = resolve(&pk_a, &[&b]).expect("head record not resolvable via DHT");
    let step = sync_follow_target(&mut b.store, Some(&resolved), 60).unwrap();
    let outcome = drive(step, &mut b.store, &[&a], 60).unwrap();
    assert!(outcome.new_events <= 3);
    assert_eq!(outcome.new_events, 3);

    assert_eq!(b.texts(), ["three", "two", "one"]);
}

#[test]
fn restart_unlock_restores_chain_and_subscriptions() {
    let mut a = Node::new();
    let pk_a = a.setup("correct horse");
    create_post(&mut a.account, &mut a.store, "one".to_string(), 10).unwrap();
    create_post(&mut a.account, &mut a.store, "two".to_string(), 20).unwrap();

    let mut b = Node::new();
    let pk_b = b.setup("pass-b");
    a.follow(&pk_b, 25).unwrap();

    let mut a = a.restart();
    let status = get_app_status(a.keystore.is_some(), &a.account);
    assert!(status.setup && !status.unlocked);

    let blob = a.keystore.clone().unwrap();
    assert!(matches!(
        unlock_account("wrong", &blob, &mut a.store, 30),
        Err(AppError::Keystore(KeystoreError::WrongPassphrase))
    ));
    assert!(!get_app_status(a.keystore.is_some(), &a.account).unlocked);

    let unlocked = unlock_account("correct horse", &blob, &mut a.store, 30).unwrap();
    assert_eq!(unlocked.pubkey_hex, pk_a);
    assert_eq!(unlocked.follows, vec![pk_b.clone()]);
    for key in &unlocked.follows {
        a.topics.push(feed_topic_str(key));
    }
    a.account = Some(unlocked.account);

    // The record issued at unlocking can be found.
    let record = unlocked.record.unwrap();
    publish(&record, &mut a, &mut b, 30);
    b.follow(&pk_a, 35).unwrap();
    let record = resolve(&pk_a, &[&b])
        .expect("record republished at unlock not resolvable via DHT");
    assert_eq!(record.payload.sequence, 1);
    assert_eq!(record.payload.validity, 30 + RECORD_LIFETIME_MS);

    // The chain goes on where it was.
    let made = create_post(&mut a.account, &mut a.store, "three".to_string(), 40).unwrap();
    publish(&made.record, &mut a, &mut b, 40);
    let timeline = b.timeline();
    assert_eq!(timeline.len(), 3);
    assert_eq!(timeline[0].text, "three");

    // The subscriptions are back.
    let made = create_post(&mut b.account, &mut b.store, "from b".to_string(), 50).unwrap();
    publish(&made.record, &mut b, &mut a, 50);
    assert!(a
        .timeline()
        .iter()
        .any(|p| p.text == "from b" && p.author == pk_b));
}

#[test]
fn unlock_recovers_missed_posts_via_dht() {
    let mut a = Node::new();
    a.setup("pass-a");
    let mut b = Node::new();
    let pk_b = b.setup("pass-b");
    a.follow(&pk_b, 1).unwrap();

    // While A is away, B posts; nobody else holds the record.
    let mut a = a.restart();
    let made = create_post(
        &mut b.account,
        &mut b.store,
        "missed while offline".to_string(),
        10,
    )
    .unwrap();
    let p = publish_head_record(&made.record, 10);
    b.dht.insert(p.key, p.data);

    let blob = a.keystore.clone().unwrap();
    let unlocked = unlock_account("pass-a", &blob, &mut a.store, 20).unwrap();
    a.account = Some(unlocked.account);
    assert!(unlocked.record.is_none());
    for key in &unlocked.follows {
        let resolved = resolve(key, &[&b]);
        let step = sync_follow_target(&mut a.store, resolved.as_ref(), 20).unwrap();
        let result = drive(step, &mut a.store, &[&b], 20);
        assert_eq!(
            after_sync_attempt(&result.map(Some)),
            FollowSync::Done {
                timeline_changed: true
            }
        );
    }

    let timeline = a.timeline();
    assert!(timeline
        .iter()
        .any(|p| p.text == "missed while offline" && p.author == pk_b));
    assert_eq!(timeline.len(), 1);
}

#[test]
fn timeline_merges_multiple_authors() {
    let mut a = Node::new();
    let pk_a = a.setup("pass-a");
    let mut c = Node::new();
    let pk_c = c.setup("pass-c");
    let mut b = Node::new();
    b.setup("pass-b");
    b.follow(&pk_a, 1).unwrap();
    b.follow(&pk_c, 2).unwrap();

    let made = create_post(&mut a.account, &mut a.store, "a1".to_string(), 10).unwrap();
    publish(&made.record, &mut a, &mut b, 10);
    let made = create_post(&mut c.account, &mut c.store, "c1".to_string(), 20).unwrap();
    publish(&made.record, &mut c, &mut b, 20);
    let made = create_post(&mut a.account, &mut a.store, "a2".to_string(), 30).unwrap();
    publish(&made.record, &mut a, &mut b, 30);

    let timeline = b.timeline();
    assert_eq!(timeline.len(), 3);
    assert_eq!(b.texts(), ["a2", "c1", "a1"]);
    assert_eq!(timeline[0].author, pk_a);
    assert_eq!(timeline[1].author, pk_c);
}

#[test]
fn command_error_paths() {
    let mut node = Node::new();

    let status = get_app_status(node.keystore.is_some(), &node.account);
    assert!(!status.setup && !status.unlocked);
    assert!(create_post(&mut node.account, &mut node.store, "x".to_string(), 1).is_err());
    assert!(get_timeline(&node.account, &node.store).is_err());
    assert!(get_my_posts(&node.account, &node.store).is_err());
    assert!(follow_user(&node.account, &mut node.store, &"ab".repeat(32), 1).is_err());
    // There is no file yet, so there is nothing in it.
    assert!(unlock_account("pass", &[], &mut node.store, 1).is_err());

    let pk = node.setup("pass");
    let status = get_app_status(node.keystore.is_some(), &node.account);
    assert!(status.setup && status.unlocked);

    assert!(setup_account(node.keystore.is_some(), "other").is_err());

    assert!(node.follow(&pk, 1).is_err());
    assert!(node.follow("not-hex", 1).is_err());
    assert!(node.follow("abcd", 1).is_err());

    let blob = node.keystore.clone().unwrap();
    assert!(unlock_account("wrong", &blob, &mut node.store, 1).is_err());
}

#[test]
fn errors_are_told_apart() {
    let mut node = Node::new();
    assert!(matches!(
        create_post(&mut node.account, &mut node.store, "x".to_string(), 1),
        Err(AppError::NotUnlocked)
    ));
    assert!(matches!(
        setup_account(true, "p"),
        Err(AppError::AlreadyExists)
    ));
    assert!(matches!(
        unlock_account("p", &[0u8; 10], &mut node.store, 1),
        Err(AppError::Keystore(KeystoreError::InvalidFormat))
    ));
    let pk = node.setup("pass");
    let e = node.follow(&pk, 1).unwrap_err();
    assert_eq!(e.to_string(), "cannot follow yourself");
    let e = node.follow("abcd", 1).unwrap_err();
    assert_eq!(e.to_string(), "public key must be a 64-char hex string");
    assert_eq!(
        AppError::NotUnlocked.to_string(),
        "account not unlocked"
    );
    assert_eq!(
        AppError::AlreadyExists.to_string(),
        "account already exists; use unlock_account"
    );
    assert_eq!(
        AppError::Keystore(KeystoreError::WrongPassphrase).to_string(),
        "wrong passphrase"
    );
    assert_eq!(
        AppError::Sync(SyncError::InvalidSignature).to_string(),
        "invalid signature"
    );
    assert_eq!(
        AppError::Store(StoreError::Serialization("x".to_string())).to_string(),
        "serialization error: x"
    );
}

#[test]
fn keys_are_normalized() {
    let key = "AB".repeat(32);
    assert_eq!(
        normalize_pubkey_hex(&format!(" \t{key}\n")).unwrap(),
        "ab".repeat(32)
    );
    assert_eq!(
        normalize_pubkey_hex(&format!("\u{3000}{key}\u{a0}")).unwrap(),
        "ab".repeat(32)
    );
    assert!(normalize_pubkey_hex(&"ab".repeat(31)).is_err());
    assert!(normalize_pubkey_hex(&format!("{} {}", "a".repeat(32), "b".repeat(31))).is_err());
    assert!(normalize_pubkey_hex("").is_err());
    assert!(normalize_pubkey_hex("   ").is_err());

    let mut node = Node::new();
    node.setup("p");
    node.follow(&format!(" {key} "), 5).unwrap();
    assert_eq!(get_follows(&node.store)[0].pubkey, "ab".repeat(32));
    assert_eq!(get_follows(&node.store)[0].since, 5);
    assert_eq!(
        unfollow_user(&mut node.store, &key).unwrap(),
        "ab".repeat(32)
    );
    assert!(get_follows(&node.store).is_empty());
    assert!(unfollow_user(&mut node.store, "x").is_err());
}

#[test]
fn posts_link_and_records_point_at_them() {
    let mut node = Node::new();
    let pk = node.setup("p");
    let first = create_post(&mut node.account, &mut node.store, "a".to_string(), 7).unwrap();
    let second = create_post(&mut node.account, &mut node.store, "b".to_string(), 8).unwrap();
    let account = node.account.as_ref().unwrap();
    assert_eq!(account.next_seq(), 2);
    assert_eq!(account.head_cid().unwrap().to_string(), second.cid);
    assert_eq!(account.pubkey_hex(), pk);

    assert_eq!(first.record.payload.sequence, 0);
    assert_eq!(second.record.payload.sequence, 1);
    assert_eq!(second.record.payload.value.to_string(), second.cid);
    assert_eq!(second.record.payload.validity, 8 + RECORD_LIFETIME_MS);
    let (seq, bytes) = node.store.get_head_record(&pk).unwrap();
    assert_eq!(seq, 1);
    assert_eq!(
        record_from_bytes(&bytes).unwrap().payload.value.to_string(),
        second.cid
    );
    assert_eq!(
        node.store.get_account(&pk).unwrap().latest_head_cid,
        Some(second.cid.clone())
    );
    let (bottom, prev, seq) = node.store.get_chain_run_bottom(&pk).unwrap();
    assert_eq!((bottom, prev, seq), (first.cid, None, 0));
    let posts = get_my_posts(&node.account, &node.store).unwrap();
    assert_eq!(posts.len(), 2);
    assert_eq!(posts[0].text, "b");
}

#[test]
fn own_record_carries_name_and_profile() {
    let mut node = Node::new();
    let pk = node.setup("p");
    let made = create_post(&mut node.account, &mut node.store, "a".to_string(), 1).unwrap();
    assert_eq!(made.record.payload.display_name, "");
    assert!(made.record.payload.profile_cid.is_none());

    // The same account with a profile event in the store.
    let identity = Identity::from_seed(&[1u8; 32]);
    let profile = create_envelope(
        &identity,
        0,
        None,
        EventKind::Profile {
            display_name: "Eve".to_string(),
            bio: String::new(),
            avatar_cid: None,
        },
    )
    .unwrap();
    let mut store = Store::open_in_memory();
    store.insert_event(&profile, 1);
    let account = Some(ActiveAccount::restore(identity, &store).unwrap());
    let record = republish_head(&account, &mut store, 100).unwrap();
    assert_eq!(record.payload.display_name, "Eve");
    assert_eq!(record.payload.profile_cid, Some(envelope_cid(&profile)));
    assert_eq!(record.payload.value, envelope_cid(&profile));
    assert_eq!(record.payload.sequence, 0);
    assert!(node.store.get_account(&pk).is_some());
}

#[test]
fn nothing_to_republish() {
    let mut store = Store::open_in_memory();
    assert!(republish_head(&None, &mut store, 1).is_none());
    let account = Some(ActiveAccount::new(Identity::from_seed(&[1u8; 32])));
    assert!(republish_head(&account, &mut store, 1).is_none());
}

#[test]
fn full_chains_cannot_be_taken_up() {
    let identity = Identity::from_seed(&[3u8; 32]);
    let last = create_envelope(
        &identity,
        u64::MAX,
        Some(deilephila::cid::bytes_to_cid(b"prev")),
        EventKind::Post {
            text: "end".to_string(),
        },
    )
    .unwrap();
    let mut store = Store::open_in_memory();
    store.insert_event(&last, 1);
    assert!(ActiveAccount::restore(identity, &store).is_none());
}

#[test]
fn forks_are_shown() {
    let identity = Identity::from_seed(&[1u8; 32]);
    let mut store = Store::open_in_memory();
    for text in ["a", "b"] {
        let e = create_envelope(
            &identity,
            0,
            None,
            EventKind::Post {
                text: text.to_string(),
            },
        )
        .unwrap();
        store.insert_event(&e, 11);
    }
    let forks = get_forks(&store);
    assert_eq!(forks.len(), 1);
    assert_eq!(forks[0].author, bytes_to_hex(&identity.public_key_bytes()));
    assert_eq!(forks[0].layer, "event");
    assert_eq!(forks[0].seq, 0);
    assert_eq!(forks[0].observed_at, 11);
    assert!(forks[0].cid_a < forks[0].cid_b);
}

#[test]
fn attempts_and_intervals() {
    assert_eq!(sync_attempt_delay(0), Some(0));
    assert_eq!(sync_attempt_delay(1), Some(3));
    assert_eq!(sync_attempt_delay(9), Some(3));
    assert_eq!(sync_attempt_delay(10), None);
    assert_eq!(REPUBLISH_INTERVAL_SECS, 12 * 60 * 60);
    assert_eq!(
        4 * REPUBLISH_INTERVAL_SECS as i64 * 1000,
        RECORD_LIFETIME_MS
    );
    assert_eq!(after_sync_attempt(&Ok(None)), FollowSync::Retry);
    assert_eq!(
        after_sync_attempt(&Err(SyncError::InvalidSignature)),
        FollowSync::Failed
    );
    let nothing_new = SyncOutcome::default();
    assert!(!timeline_changed(&nothing_new));
    assert_eq!(
        after_sync_attempt(&Ok(Some(nothing_new))),
        FollowSync::Done {
            timeline_changed: false
        }
    );
    let mut store = Store::open_in_memory();
    assert!(sync_follow_target(&mut store, None, 1).is_none());
}

#[test]
fn rows_become_views() {
    let view = PostView::from(TimelineRow {
        cid: "c".to_string(),
        author: "a".to_string(),
        text: "t".to_string(),
        timestamp: 4,
        edited: true,
        deleted: false,
        display_name: Some("n".to_string()),
    });
    assert_eq!(view.cid, "c");
    assert_eq!(view.author, "a");
    assert_eq!(view.text, "t");
    assert_eq!(view.timestamp, 4);
    assert!(view.edited && !view.deleted);
    assert_eq!(view.author_display_name.as_deref(), Some("n"));
}

#[test]
fn old_records_do_not_undo_new_posts() {
    let mut a = Node::new();
    let pk_a = a.setup("pass-a");
    let first = create_post(&mut a.account, &mut a.store, "one".to_string(), 10).unwrap();
    let second = create_post(&mut a.account, &mut a.store, "two".to_string(), 20).unwrap();
    let mut b = Node::new();
    b.setup("pass-b");
    b.follow(&pk_a, 1).unwrap();
    publish(&second.record, &mut a, &mut b, 20);
    publish(&first.record, &mut a, &mut b, 30);
    assert_eq!(b.texts(), ["two", "one"]);
    let (seq, _) = b.store.get_head_record(&pk_a).unwrap();
    assert_eq!(seq, 1);
    assert_eq!(
        b.store.get_account(&pk_a).unwrap().latest_head_cid,
        Some(second.cid)
    );
    // A record of somebody who is not followed is not taken in.
    let stranger = Identity::from_seed(&[9u8; 32]);
    let record = create_ipns_record(
        &stranger,
        0,
        first.record.payload.value.clone(),
        100,
        None,
        "S".to_string(),
    );
    assert!(matches!(
        handle_head_received(&mut b.store, &record, 40),
        HeadReceived::Ignored
    ));
}
