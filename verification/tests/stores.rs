use deilephila::cid::{bytes_to_cid, Cid};
use deilephila::event::{
    envelope_cid, envelope_to_dag_cbor, payload_to_dag_cbor, EventEnvelope, EventKind,
    EventPayload,
};
use deilephila::head::{create_ipns_record, record_to_bytes, IpnsRecord};
use deilephila::identity::{create_envelope, create_envelope_at, Identity};
use deilephila::store::model::ForkLayer;
use deilephila::store::{
    backfill_rows, backfill_target_cid, event_target, InsertOutcome, SavedEventRow, Store,
    StoreError, SyncStateRow,
};
use deilephila::util::bytes_to_hex;

fn key_of(identity: &Identity) -> String {
    bytes_to_hex(&identity.public_key_bytes())
}

fn post(identity: &Identity, seq: u64, prev: Option<Cid>, text: &str) -> EventEnvelope {
    create_envelope(
        identity,
        seq,
        prev,
        EventKind::Post {
            text: text.to_string(),
        },
    )
    .unwrap()
}

fn edit(identity: &Identity, seq: u64, target: &Cid, text: &str) -> EventEnvelope {
    create_envelope(
        identity,
        seq,
        Some(target.clone()),
        EventKind::Edit {
            text: text.to_string(),
            target: target.clone(),
        },
    )
    .unwrap()
}

fn delete(identity: &Identity, seq: u64, target: &Cid) -> EventEnvelope {
    create_envelope(
        identity,
        seq,
        Some(target.clone()),
        EventKind::Delete {
            target: target.clone(),
        },
    )
    .unwrap()
}

fn profile(identity: &Identity, seq: u64, prev: Option<Cid>, name: &str) -> EventEnvelope {
    create_envelope(
        identity,
        seq,
        prev,
        EventKind::Profile {
            display_name: name.to_string(),
            bio: String::new(),
            avatar_cid: None,
        },
    )
    .unwrap()
}

#[test]
fn insert_and_get_post() {
    let mut store = Store::open_in_memory();
    let identity = Identity::generate().unwrap();
    let envelope = post(&identity, 0, None, "hello store");
    store.insert_event(&envelope, 1);

    let posts = store.get_posts_by_author(&key_of(&identity));
    assert_eq!(posts.len(), 1);
    assert_eq!(posts[0].text, "hello store");
    assert!(!posts[0].edited);
    assert!(!posts[0].deleted);
}

#[test]
fn insert_is_idempotent() {
    let mut store = Store::open_in_memory();
    let identity = Identity::generate().unwrap();
    let envelope = post(&identity, 0, None, "once");
    store.insert_event(&envelope, 1);
    store.insert_event(&envelope, 1);

    let posts = store.get_posts_by_author(&key_of(&identity));
    assert_eq!(posts.len(), 1);
}

#[test]
fn edit_projection_updates() {
    let mut store = Store::open_in_memory();
    let identity = Identity::generate().unwrap();
    let first = post(&identity, 0, None, "original");
    let post_cid = envelope_cid(&first);
    store.insert_event(&first, 1);
    store.insert_event(&edit(&identity, 1, &post_cid, "edited"), 1);

    let posts = store.get_posts_by_author(&key_of(&identity));
    assert_eq!(posts.len(), 1);
    assert_eq!(posts[0].text, "edited");
    assert!(posts[0].edited);
}

#[test]
fn delete_projection_updates() {
    let mut store = Store::open_in_memory();
    let identity = Identity::generate().unwrap();
    let first = post(&identity, 0, None, "bye");
    let post_cid = envelope_cid(&first);
    store.insert_event(&first, 1);
    store.insert_event(&delete(&identity, 1, &post_cid), 1);

    let posts = store.get_posts_by_author(&key_of(&identity));
    assert!(posts[0].deleted);
}

#[test]
fn cross_author_edit_is_ignored() {
    let mut store = Store::open_in_memory();
    let victim = Identity::generate().unwrap();
    let attacker = Identity::generate().unwrap();
    let first = post(&victim, 0, None, "original");
    let post_cid = envelope_cid(&first);
    store.insert_event(&first, 1);

    let forged_edit = create_envelope(
        &attacker,
        0,
        None,
        EventKind::Edit {
            text: "hacked".to_string(),
            target: post_cid,
        },
    )
    .unwrap();
    store.insert_event(&forged_edit, 1);

    let posts = store.get_posts_by_author(&key_of(&victim));
    assert_eq!(posts.len(), 1);
    assert_eq!(posts[0].text, "original");
    assert!(!posts[0].edited);
    // The event itself is kept.
    assert!(store.has_block(&envelope_cid(&forged_edit)));
}

#[test]
fn cross_author_delete_is_ignored() {
    let mut store = Store::open_in_memory();
    let victim = Identity::generate().unwrap();
    let attacker = Identity::generate().unwrap();
    let first = post(&victim, 0, None, "keep me");
    let post_cid = envelope_cid(&first);
    store.insert_event(&first, 1);

    let forged_delete = create_envelope(
        &attacker,
        0,
        None,
        EventKind::Delete { target: post_cid },
    )
    .unwrap();
    store.insert_event(&forged_delete, 1);

    let posts = store.get_posts_by_author(&key_of(&victim));
    assert_eq!(posts.len(), 1);
    assert!(!posts[0].deleted);
}

#[test]
fn profile_upsert() {
    let mut store = Store::open_in_memory();
    let identity = Identity::generate().unwrap();
    let envelope = create_envelope(
        &identity,
        0,
        None,
        EventKind::Profile {
            display_name: "Alice".to_string(),
            bio: "hello".to_string(),
            avatar_cid: None,
        },
    )
    .unwrap();
    store.insert_event(&envelope, 1);

    let account = store.get_account(&key_of(&identity)).unwrap();
    assert_eq!(account.display_name, "Alice");
    assert_eq!(account.bio, "hello");
    assert_eq!(account.last_seen, envelope.payload.timestamp);
}

#[test]
fn older_profile_does_not_replace_newer() {
    let mut store = Store::open_in_memory();
    let identity = Identity::generate().unwrap();
    let p0 = profile(&identity, 0, None, "old");
    let p3 = profile(&identity, 3, Some(envelope_cid(&p0)), "new");
    store.insert_event(&p3, 1);
    store.insert_event(&p0, 1);
    let key = key_of(&identity);
    assert_eq!(store.get_account(&key).unwrap().display_name, "new");
    assert_eq!(
        store.get_latest_profile_cid(&key),
        Some(envelope_cid(&p3).to_string())
    );
    assert_eq!(store.latest_profile_of(&key), Some(envelope_cid(&p3)));
    assert!(store.get_latest_profile_cid("nobody").is_none());
}

#[test]
fn follow_crud_is_idempotent() {
    let mut store = Store::open_in_memory();

    store.add_follow("aa11", 100);
    store.add_follow("bb22", 200);
    store.add_follow("aa11", 999);

    let follows = store.get_follows();
    assert_eq!(follows.len(), 2);
    assert_eq!(follows[0].pubkey, "bb22");
    assert_eq!(follows[1].pubkey, "aa11");
    assert_eq!(follows[1].since, 100);
    assert!(follows[0].display_name.is_none());

    store.remove_follow("aa11");
    let follows = store.get_follows();
    assert_eq!(follows.len(), 1);
    assert_eq!(follows[0].pubkey, "bb22");
    assert!(store.is_followed("bb22"));
    assert!(!store.is_followed("aa11"));
}

#[test]
fn follow_includes_display_name_when_known() {
    let mut store = Store::open_in_memory();
    let followee = Identity::generate().unwrap();
    store.add_follow(&key_of(&followee), 100);
    store.insert_event(&profile(&followee, 0, None, "Bob"), 1);

    let follows = store.get_follows();
    assert_eq!(follows[0].display_name.as_deref(), Some("Bob"));
}

#[test]
fn display_name_snapshot_updates_on_newer_sequence() {
    let mut store = Store::open_in_memory();
    let pubkey_hex = "aa11";

    store.fill_display_name_snapshot(pubkey_hex, 3, "Alice");
    let account = store.get_account(pubkey_hex).unwrap();
    assert_eq!(account.display_name, "Alice");

    store.fill_display_name_snapshot(pubkey_hex, 4, "Alice2");
    let account = store.get_account(pubkey_hex).unwrap();
    assert_eq!(account.display_name, "Alice2");

    store.fill_display_name_snapshot(pubkey_hex, 4, "Mallory");
    store.fill_display_name_snapshot(pubkey_hex, 2, "Mallory");
    let account = store.get_account(pubkey_hex).unwrap();
    assert_eq!(account.display_name, "Alice2");
}

#[test]
fn snapshot_of_the_first_record_counts() {
    let mut store = Store::open_in_memory();
    store.fill_display_name_snapshot("aa11", 0, "Zero");
    assert_eq!(store.get_account("aa11").unwrap().display_name, "Zero");
    let notes = store.get_account_notes("aa11").unwrap();
    assert_eq!(notes.snapshot_display_name, "Zero");
    assert_eq!(notes.snapshot_seq, Some(0));
    assert!(notes.latest_head_cid.is_none());
    assert!(store.get_account_notes("bb22").is_none());
}

#[test]
fn display_name_snapshot_never_overrides_chain_fold() {
    let mut store = Store::open_in_memory();
    let identity = Identity::generate().unwrap();
    let pubkey_hex = key_of(&identity);
    store.insert_event(&profile(&identity, 0, None, "ChainName"), 1);
    store.fill_display_name_snapshot(&pubkey_hex, 99, "SnapshotName");

    let account = store.get_account(&pubkey_hex).unwrap();
    assert_eq!(account.display_name, "ChainName");
}

#[test]
fn head_record_upsert_follows_sequence_validity_order() {
    let mut store = Store::open_in_memory();
    store.upsert_head_record("aa", 5, 100, b"v1", 1);

    store.upsert_head_record("aa", 5, 200, b"v2", 2);
    let (seq, bytes) = store.get_head_record("aa").unwrap();
    assert_eq!((seq, bytes.as_slice()), (5, b"v2".as_slice()));

    store.upsert_head_record("aa", 5, 150, b"v3", 3);
    store.upsert_head_record("aa", 5, 200, b"v4", 4);
    store.upsert_head_record("aa", 4, 999, b"v5", 5);
    let (seq, bytes) = store.get_head_record("aa").unwrap();
    assert_eq!((seq, bytes.as_slice()), (5, b"v2".as_slice()));

    store.upsert_head_record("aa", 6, 50, b"v6", 6);
    let (seq, bytes) = store.get_head_record("aa").unwrap();
    assert_eq!((seq, bytes.as_slice()), (6, b"v6".as_slice()));
    assert!(store.get_head_record("bb").is_none());
}

#[test]
fn timeline_merges_self_and_follows_only() {
    let mut store = Store::open_in_memory();
    let me = Identity::generate().unwrap();
    let followee = Identity::generate().unwrap();
    let stranger = Identity::generate().unwrap();
    let me_hex = key_of(&me);
    let followee_hex = key_of(&followee);

    store.add_follow(&followee_hex, 1);
    for who in [&me, &followee, &stranger] {
        store.insert_event(&post(who, 0, None, "hi"), 1);
    }

    let timeline = store.get_timeline(&me_hex);
    let authors: Vec<&str> = timeline.iter().map(|r| r.author.as_str()).collect();
    assert_eq!(timeline.len(), 2);
    assert!(authors.contains(&me_hex.as_str()));
    assert!(authors.contains(&followee_hex.as_str()));
}

#[test]
fn timeline_is_timestamp_desc_with_display_name() {
    let mut store = Store::open_in_memory();
    let me = Identity::generate().unwrap();
    let followee = Identity::generate().unwrap();
    let me_hex = key_of(&me);
    let followee_hex = key_of(&followee);

    store.add_follow(&followee_hex, 1);

    let make_post = |identity: &Identity, seq: u64, ts: i64, text: &str| {
        let payload = EventPayload {
            seq,
            kind: EventKind::Post {
                text: text.to_string(),
            },
            prev: None,
            author: identity.public_key_bytes(),
            timestamp: ts,
        };
        let signature = identity.sign_bytes(&payload_to_dag_cbor(&payload));
        EventEnvelope { payload, signature }
    };

    let old = make_post(&followee, 0, 1000, "old");
    let new = make_post(&me, 0, 2000, "new");
    store.insert_event(&old, 1);
    store.insert_event(&new, 1);
    store.insert_event(&profile(&followee, 1, Some(envelope_cid(&old)), "Carol"), 1);

    let timeline = store.get_timeline(&me_hex);
    assert_eq!(timeline.len(), 2);
    assert_eq!(timeline[0].text, "new");
    assert_eq!(timeline[1].text, "old");
    assert_eq!(timeline[1].display_name.as_deref(), Some("Carol"));
    assert!(timeline[0].display_name.is_none());
}

#[test]
fn multiple_posts_returned_in_desc_order() {
    let mut store = Store::open_in_memory();
    let identity = Identity::generate().unwrap();
    let env0 = post(&identity, 0, None, "first");
    let cid0 = envelope_cid(&env0);
    store.insert_event(&env0, 1);
    store.insert_event(&post(&identity, 1, Some(cid0), "second"), 1);

    let posts = store.get_posts_by_author(&key_of(&identity));
    assert_eq!(posts.len(), 2);
    assert_eq!(posts[0].text, "second");
}

#[test]
fn edit_before_post_is_applied_on_post_insert() {
    let mut store = Store::open_in_memory();
    let identity = Identity::generate().unwrap();
    let first = post(&identity, 0, None, "original");
    let post_cid = envelope_cid(&first);

    store.insert_event(&edit(&identity, 1, &post_cid, "edited"), 1);
    store.insert_event(&first, 1);

    let posts = store.get_posts_by_author(&key_of(&identity));
    assert_eq!(posts.len(), 1);
    assert_eq!(posts[0].text, "edited");
    assert!(posts[0].edited);
}

#[test]
fn delete_before_post_is_applied_on_post_insert() {
    let mut store = Store::open_in_memory();
    let identity = Identity::generate().unwrap();
    let first = post(&identity, 0, None, "bye");
    let post_cid = envelope_cid(&first);

    store.insert_event(&delete(&identity, 1, &post_cid), 1);
    store.insert_event(&first, 1);

    let posts = store.get_posts_by_author(&key_of(&identity));
    assert!(posts[0].deleted);
}

#[test]
fn edit_lww_is_insertion_order_independent() {
    let mut store = Store::open_in_memory();
    let identity = Identity::generate().unwrap();
    let key = key_of(&identity);
    let first = post(&identity, 0, None, "v0");
    let post_cid = envelope_cid(&first);

    store.insert_event(&edit(&identity, 5, &post_cid, "v5"), 1);
    store.insert_event(&edit(&identity, 3, &post_cid, "v3"), 1);
    store.insert_event(&first, 1);
    assert_eq!(store.get_posts_by_author(&key)[0].text, "v5");

    store.insert_event(&edit(&identity, 4, &post_cid, "v4"), 1);
    assert_eq!(store.get_posts_by_author(&key)[0].text, "v5");

    store.insert_event(&edit(&identity, 6, &post_cid, "v6"), 1);
    assert_eq!(store.get_posts_by_author(&key)[0].text, "v6");
}

#[test]
fn cross_author_pending_ops_are_ignored() {
    let mut store = Store::open_in_memory();
    let alice = Identity::generate().unwrap();
    let mallory = Identity::generate().unwrap();
    let first = post(&alice, 0, None, "alice's post");
    let post_cid = envelope_cid(&first);

    let evil_edit = create_envelope(
        &mallory,
        0,
        None,
        EventKind::Edit {
            text: "hacked".to_string(),
            target: post_cid.clone(),
        },
    )
    .unwrap();
    let evil_delete = create_envelope(
        &mallory,
        1,
        None,
        EventKind::Delete { target: post_cid },
    )
    .unwrap();
    store.insert_event(&evil_edit, 1);
    store.insert_event(&evil_delete, 1);
    store.insert_event(&first, 1);

    let posts = store.get_posts_by_author(&key_of(&alice));
    assert_eq!(posts.len(), 1);
    assert_eq!(posts[0].text, "alice's post");
    assert!(!posts[0].edited);
    assert!(!posts[0].deleted);
}

#[test]
fn pending_ops_are_idempotent_on_reinsert() {
    let mut store = Store::open_in_memory();
    let identity = Identity::generate().unwrap();
    let first = post(&identity, 0, None, "original");
    let post_cid = envelope_cid(&first);
    let second = edit(&identity, 1, &post_cid, "edited");

    store.insert_event(&second, 1);
    store.insert_event(&first, 1);
    store.insert_event(&first, 1);
    store.insert_event(&second, 1);

    let posts = store.get_posts_by_author(&key_of(&identity));
    assert_eq!(posts.len(), 1);
    assert_eq!(posts[0].text, "edited");
}

#[test]
fn backfill_repairs_target_cid_and_projection() {
    let identity = Identity::generate().unwrap();
    let first = post(&identity, 0, None, "original");
    let post_cid = envelope_cid(&first);
    let second = edit(&identity, 1, &post_cid, "edited");

    // Rows from before targets were kept.
    let rows = [
        SavedEventRow {
            raw_cbor: envelope_to_dag_cbor(&first),
            kind_tag: "Post".to_string(),
            target_cid: None,
        },
        SavedEventRow {
            raw_cbor: envelope_to_dag_cbor(&second),
            kind_tag: "Edit".to_string(),
            target_cid: None,
        },
    ];
    assert!(backfill_target_cid(&rows[0]).unwrap().is_none());
    let repair = backfill_target_cid(&rows[1]).unwrap().unwrap();
    assert_eq!(repair.target_cid, post_cid.to_string());

    // A repaired row needs no repair.
    let repaired = SavedEventRow {
        target_cid: Some(repair.target_cid),
        ..rows[1].clone()
    };
    assert!(backfill_target_cid(&repaired).unwrap().is_none());

    // The posts come out right from the blocks.
    let mut store = Store::open_in_memory();
    let blocks: Vec<Vec<u8>> = rows.iter().map(|r| r.raw_cbor.clone()).collect();
    store.restore_events(&blocks, 1).unwrap();
    let posts = store.get_posts_by_author(&key_of(&identity));
    assert_eq!(posts[0].text, "edited");
    assert!(posts[0].edited);

    // A row that holds no event says so.
    let broken = SavedEventRow {
        raw_cbor: vec![0xa0],
        kind_tag: "Edit".to_string(),
        target_cid: None,
    };
    assert!(matches!(
        backfill_target_cid(&broken),
        Err(StoreError::Serialization(_))
    ));
}

#[test]
fn one_repair_pass_is_enough() {
    let identity = Identity::from_seed(&[8u8; 32]);
    let first = post(&identity, 0, None, "v0");
    let target = envelope_cid(&first);
    let events = [
        (first, "Post"),
        (edit(&identity, 1, &target, "v1"), "Edit"),
        (delete(&identity, 2, &target), "Delete"),
    ];
    let mut rows: Vec<SavedEventRow> = events
        .iter()
        .map(|(e, tag)| SavedEventRow {
            raw_cbor: envelope_to_dag_cbor(e),
            kind_tag: tag.to_string(),
            target_cid: None,
        })
        .collect();
    let (repairs, outcome) = backfill_rows(&rows);
    assert!(outcome.is_ok());
    assert_eq!(repairs.len(), 2);
    for (repair, i) in repairs.into_iter().zip([1, 2]) {
        assert_eq!(repair.cid, envelope_cid(&events[i].0).to_string());
        assert_eq!(repair.target_cid, target.to_string());
        rows[i].target_cid = Some(repair.target_cid);
    }
    let (repairs, outcome) = backfill_rows(&rows);
    assert!(repairs.is_empty() && outcome.is_ok());

    // A broken row ends the pass; what came before it is repaired.
    rows[1].target_cid = None;
    rows[2].target_cid = None;
    rows[2].raw_cbor = vec![0xa0];
    let (repairs, outcome) = backfill_rows(&rows);
    assert_eq!(repairs.len(), 1);
    assert!(matches!(outcome, Err(StoreError::Serialization(_))));
}

#[test]
fn targets_of_kinds() {
    let target = bytes_to_cid(b"t");
    assert!(event_target(&EventKind::Post {
        text: String::new()
    })
    .is_none());
    assert_eq!(
        event_target(&EventKind::Delete {
            target: target.clone()
        }),
        Some(target.clone())
    );
    assert_eq!(
        event_target(&EventKind::Reply {
            text: String::new(),
            target: target.clone()
        }),
        Some(target)
    );
}

#[test]
fn blocks_are_found_by_cid() {
    let mut store = Store::open_in_memory();
    let identity = Identity::generate().unwrap();
    let e = post(&identity, 0, None, "x");
    let cid = envelope_cid(&e);
    assert!(store.block_of(&cid).is_none());
    let outcome = store.insert_event(&e, 1);
    assert_eq!(
        outcome,
        InsertOutcome {
            inserted: true,
            forks_recorded: 0
        }
    );
    assert_eq!(store.block_of(&cid).unwrap(), envelope_to_dag_cbor(&e));
    assert_eq!(
        store.get_raw_block(&cid.to_string()).unwrap(),
        envelope_to_dag_cbor(&e)
    );
    assert!(store.get_raw_block("nothing").is_none());
    assert!(!store.insert_event(&e, 2).inserted);
    assert_eq!(store.event_count(), 1);
    assert_eq!(store.block_at(0), envelope_to_dag_cbor(&e));
}

#[test]
fn heads_and_runs() {
    let mut store = Store::open_in_memory();
    let identity = Identity::generate().unwrap();
    let key = key_of(&identity);
    assert!(store.get_head(&key).is_none());
    assert!(store.get_chain_run_bottom(&key).is_none());

    let mut chain: Vec<EventEnvelope> = Vec::new();
    for seq in 0..6u64 {
        let prev = chain.last().map(envelope_cid);
        chain.push(post(&identity, seq, prev, &format!("{seq}")));
    }
    // Events 2, 4 and 5: the newest is 5, and the run from it ends at 4.
    for i in [4, 2, 5] {
        store.insert_event(&chain[i], 1);
    }
    let cid5 = envelope_cid(&chain[5]).to_string();
    assert_eq!(store.get_head(&key), Some((5, Some(cid5))));
    let (cid, prev, seq) = store.get_chain_run_bottom(&key).unwrap();
    assert_eq!(cid, envelope_cid(&chain[4]).to_string());
    assert_eq!(prev, Some(envelope_cid(&chain[3]).to_string()));
    assert_eq!(seq, 4);
    // With 3 the run goes down to 2.
    store.insert_event(&chain[3], 1);
    let (cid, _, seq) = store.run_bottom_of(&key).unwrap();
    assert_eq!(cid, envelope_cid(&chain[2]));
    assert_eq!(seq, 2);
    assert_eq!(store.head_of(&key), Some((5, envelope_cid(&chain[5]))));
}

#[test]
fn event_forks_are_recorded_once() {
    let mut store = Store::open_in_memory();
    let identity = Identity::generate().unwrap();
    let a = post(&identity, 0, None, "a");
    let b = post(&identity, 0, None, "b");
    let c = post(&identity, 0, None, "c");
    assert_eq!(store.insert_event(&a, 10).forks_recorded, 0);
    assert_eq!(store.insert_event(&b, 20).forks_recorded, 1);
    assert_eq!(store.insert_event(&b, 30).forks_recorded, 0);
    assert_eq!(store.insert_event(&c, 40).forks_recorded, 2);
    let forks = store.list_forks(None);
    assert_eq!(forks.len(), 3);
    let f = &forks[0];
    assert_eq!(f.author, key_of(&identity));
    assert_eq!(f.layer, "event");
    assert_eq!(f.seq, 0);
    assert_eq!(f.observed_at, 20);
    assert!(f.cid_a < f.cid_b);
    let cid_a = envelope_cid(&a).to_string();
    let (first, second) = if f.cid_a == cid_a { (&a, &b) } else { (&b, &a) };
    assert_eq!(f.evidence_a, envelope_to_dag_cbor(first));
    assert_eq!(f.evidence_b, envelope_to_dag_cbor(second));
    // All three events are kept.
    assert_eq!(store.get_posts_by_author(&key_of(&identity)).len(), 3);
    assert!(store.list_forks(Some("someone else")).is_empty());
}

#[test]
fn head_forks_are_recorded_once() {
    let mut store = Store::open_in_memory();
    let identity = Identity::generate().unwrap();
    let at = |seq: u64, name: &[u8], validity: i64| -> IpnsRecord {
        create_ipns_record(
            &identity,
            seq,
            bytes_to_cid(name),
            validity,
            None,
            String::new(),
        )
    };
    let a = at(1, b"a", 100);
    let b = at(1, b"b", 200);
    assert_eq!(store.observe_head_record(&a, 1), 0);
    // Issued again: no fork.
    assert_eq!(store.observe_head_record(&at(1, b"a", 150), 2), 0);
    assert_eq!(store.observe_head_record(&b, 3), 1);
    assert_eq!(store.observe_head_record(&a, 4), 0);
    let forks = store.list_forks(Some(&key_of(&identity)));
    assert_eq!(forks.len(), 1);
    assert_eq!(forks[0].layer, "head");
    assert_eq!(forks[0].seq, 1);
    // The newer record is kept.
    let (_, bytes) = store.get_head_record(&key_of(&identity)).unwrap();
    assert_eq!(bytes, record_to_bytes(&b));
}

#[test]
fn saved_store_comes_back() {
    let mut store = Store::open_in_memory();
    let identity = Identity::generate().unwrap();
    let key = key_of(&identity);
    let a = post(&identity, 0, None, "a");
    let b = post(&identity, 0, None, "b");
    store.insert_event(&a, 1);
    store.insert_event(&b, 2);
    store.insert_event(&profile(&identity, 1, Some(envelope_cid(&a)), "Me"), 3);
    store.add_follow("ff", 7);
    store.update_head_cid(&key, "head");
    let state = SyncStateRow {
        pubkey: key.clone(),
        window_floor_seq: 3,
        cursor_cid: None,
        cursor_seq: Some(4),
        completed: true,
    };
    store.upsert_sync_state(&state, 9);

    // The forks first: then the events find them known, with their times.
    let mut again = Store::open_in_memory();
    for fork in store.list_forks(None) {
        assert!(again.restore_fork(ForkLayer::Event, &fork));
        assert!(!again.restore_fork(ForkLayer::Event, &fork));
    }
    let blocks: Vec<Vec<u8>> = (0..store.event_count()).map(|i| store.block_at(i)).collect();
    again.restore_events(&blocks, 99).unwrap();
    for f in store.get_follows() {
        again.add_follow(&f.pubkey, f.since);
    }
    again.update_head_cid(&key, "head");
    again.upsert_sync_state(&store.get_sync_state(&key).unwrap(), 9);

    assert_eq!(again.event_count(), 3);
    assert_eq!(again.list_forks(None).len(), 1);
    assert_eq!(again.list_forks(None)[0].observed_at, 2);
    assert_eq!(again.get_sync_state(&key), Some(state));
    assert_eq!(again.get_account(&key).unwrap().display_name, "Me");
    assert_eq!(
        again.get_account(&key).unwrap().latest_head_cid.as_deref(),
        Some("head")
    );
    let texts = |s: &Store| -> Vec<String> {
        s.get_posts_by_author(&key).iter().map(|p| p.text.clone()).collect()
    };
    assert_eq!(texts(&again), texts(&store));
    assert!(again.is_followed("ff"));
}

#[test]
fn restoring_stops_at_a_broken_block() {
    let identity = Identity::generate().unwrap();
    let a = post(&identity, 0, None, "a");
    let b = post(&identity, 1, Some(envelope_cid(&a)), "b");
    let mut store = Store::open_in_memory();
    let blocks = vec![
        envelope_to_dag_cbor(&a),
        vec![0xa0],
        envelope_to_dag_cbor(&b),
    ];
    let e = store.restore_events(&blocks, 1).unwrap_err();
    assert_eq!(
        e,
        StoreError::Serialization("not an event".to_string())
    );
    assert_eq!(e.to_string(), "serialization error: not an event");
    assert_eq!(store.event_count(), 1);
}

#[test]
fn same_events_in_any_order_show_the_same_posts() {
    let identity = Identity::from_seed(&[4u8; 32]);
    let key = key_of(&identity);
    let first = post(&identity, 0, None, "v0");
    let target = envelope_cid(&first);
    let events = [
        first,
        edit(&identity, 1, &target, "v1"),
        edit(&identity, 2, &target, "v2"),
        delete(&identity, 3, &target),
        post(&identity, 4, Some(target.clone()), "other"),
    ];
    let shown = |order: [usize; 5]| -> Vec<(String, String, bool, bool)> {
        let mut store = Store::open_in_memory();
        for i in order {
            store.insert_event(&events[i], 1);
        }
        store
            .get_posts_by_author(&key)
            .into_iter()
            .map(|p| (p.cid, p.text, p.edited, p.deleted))
            .collect()
    };
    let expected = shown([0, 1, 2, 3, 4]);
    assert_eq!(expected[1].1, "v2");
    assert!(expected[1].3);
    for order in [[4, 3, 2, 1, 0], [2, 0, 4, 1, 3], [3, 1, 0, 2, 4]] {
        assert_eq!(shown(order), expected);
    }
}

#[test]
fn equal_times_keep_the_order_of_arrival() {
    let mut store = Store::open_in_memory();
    let me = Identity::from_seed(&[2u8; 32]);
    for (seq, text) in [(0u64, "a"), (1, "b"), (2, "c")] {
        let e = create_envelope_at(
            &me,
            seq,
            None,
            EventKind::Post {
                text: text.to_string(),
            },
            5,
        );
        store.insert_event(&e, 1);
    }
    let texts: Vec<String> = store
        .get_timeline(&key_of(&me))
        .into_iter()
        .map(|r| r.text)
        .collect();
    assert_eq!(texts, ["a", "b", "c"]);
}
