use deilephila::cid::bytes_to_cid;
use deilephila::head::{
    create_ipns_record, feed_topic_str, find_record_forks, is_expired, record_from_bytes,
    record_to_bytes, select_best, verify_ipns_record, HeadError, IpnsRecord, RECORD_LIFETIME_MS,
};
use deilephila::identity::Identity;

fn make_record(identity: &Identity, sequence: u64, validity: i64) -> IpnsRecord {
    create_ipns_record(
        identity,
        sequence,
        bytes_to_cid(b"head block"),
        validity,
        Some(bytes_to_cid(b"profile block")),
        "Alice".to_string(),
    )
}

#[test]
fn topic_name_format() {
    assert_eq!(feed_topic_str("ab01"), "deilephila/feed/ab01");
}

#[test]
fn record_sign_and_verify_ok() {
    let id = Identity::generate().unwrap();
    let record = make_record(&id, 7, 1_000);
    assert!(verify_ipns_record(&record).is_ok());
    assert_eq!(record.payload.name, id.public_key_bytes());
    assert_eq!(record.payload.sequence, 7);
    assert_eq!(record.payload.validity, 1_000);
    assert_eq!(record.payload.display_name, "Alice");
    assert_eq!(
        record.payload.profile_cid,
        Some(bytes_to_cid(b"profile block"))
    );
}

#[test]
fn record_without_profile_verifies() {
    let id = Identity::generate().unwrap();
    let record = create_ipns_record(&id, 0, bytes_to_cid(b"head"), 1_000, None, String::new());
    assert!(verify_ipns_record(&record).is_ok());
}

#[test]
fn record_tampered_fields_fail() {
    let id = Identity::generate().unwrap();
    let base = make_record(&id, 7, 1_000);

    let mut r = base.clone();
    r.payload.sequence += 1;
    assert!(verify_ipns_record(&r).is_err());

    let mut r = base.clone();
    r.payload.value = bytes_to_cid(b"another head");
    assert!(verify_ipns_record(&r).is_err());

    let mut r = base.clone();
    r.payload.validity += 1;
    assert!(verify_ipns_record(&r).is_err());

    let mut r = base.clone();
    r.payload.display_name = "Mallory".to_string();
    assert!(verify_ipns_record(&r).is_err());

    let mut r = base;
    r.payload.profile_cid = None;
    assert!(verify_ipns_record(&r).is_err());
}

#[test]
fn record_wrong_key_fails() {
    let id = Identity::generate().unwrap();
    let other = Identity::generate().unwrap();
    let mut forged = make_record(&id, 7, 1_000);
    forged.payload.name = other.public_key_bytes();
    assert!(verify_ipns_record(&forged).is_err());
}

#[test]
fn record_roundtrip_is_deterministic() {
    let id = Identity::generate().unwrap();
    let record = make_record(&id, 7, 1_000);
    let bytes = record_to_bytes(&record);
    let recovered = record_from_bytes(&bytes).unwrap();
    assert_eq!(record_to_bytes(&recovered), bytes);
    assert!(verify_ipns_record(&recovered).is_ok());
}

#[test]
fn record_garbage_bytes_rejected() {
    assert!(record_from_bytes(b"not cbor at all \xff\xff").is_err());
}

#[test]
fn expiry_boundary() {
    let id = Identity::generate().unwrap();
    let record = make_record(&id, 0, 1_000);
    assert!(!is_expired(&record, 999));
    assert!(is_expired(&record, 1_000));
    assert!(is_expired(&record, 1_001));
}

#[test]
fn select_best_picks_max_valid_sequence() {
    let id = Identity::generate().unwrap();
    let pubkey = id.public_key_bytes();

    let low = make_record(&id, 3, 1_000);
    let high = make_record(&id, 5, 1_000);
    let mut broken = make_record(&id, 8, 1_000);
    broken.payload.sequence = 9;

    let candidates = [low, broken, high];
    let best = select_best(&pubkey, &candidates).unwrap();
    assert_eq!(best.payload.sequence, 5);
}

#[test]
fn select_best_accepts_expired_record() {
    let id = Identity::generate().unwrap();
    let pubkey = id.public_key_bytes();
    let expired_but_newer = make_record(&id, 10, 0);
    let fresh_but_older = make_record(&id, 4, i64::MAX);

    let candidates = [fresh_but_older, expired_but_newer];
    let best = select_best(&pubkey, &candidates).unwrap();
    assert_eq!(best.payload.sequence, 10);
}

#[test]
fn select_best_filters_other_accounts() {
    let id = Identity::generate().unwrap();
    let other = Identity::generate().unwrap();
    let mine = make_record(&id, 1, 1_000);
    let theirs = make_record(&other, 99, 1_000);

    let candidates = [theirs, mine];
    let best = select_best(&id.public_key_bytes(), &candidates).unwrap();
    assert_eq!(best.payload.sequence, 1);
    assert_eq!(best.payload.name, id.public_key_bytes());
}

#[test]
fn select_best_empty_is_none() {
    let id = Identity::generate().unwrap();
    assert!(select_best(&id.public_key_bytes(), &[]).is_none());
}

#[test]
fn select_best_same_sequence_prefers_newer_validity() {
    let id = Identity::generate().unwrap();
    let original = make_record(&id, 5, 1_000);
    let republished = make_record(&id, 5, 2_000);

    let candidates = [original.clone(), republished.clone()];
    let best = select_best(&id.public_key_bytes(), &candidates).unwrap();
    assert_eq!(best.payload.validity, 2_000);
    let candidates = [republished.clone(), original];
    let best = select_best(&id.public_key_bytes(), &candidates).unwrap();
    assert_eq!(best.payload.validity, 2_000);

    let newer_seq = make_record(&id, 6, 500);
    let candidates = [republished, newer_seq];
    let best = select_best(&id.public_key_bytes(), &candidates).unwrap();
    assert_eq!(best.payload.sequence, 6);
}

#[test]
fn find_record_forks_detects_equivocation() {
    let id = Identity::generate().unwrap();
    let a = make_record(&id, 5, 1_000);
    let b = create_ipns_record(
        &id,
        5,
        bytes_to_cid(b"other head"),
        2_000,
        None,
        String::new(),
    );
    let unrelated = make_record(&id, 6, 1_000);

    let candidates = [a.clone(), b.clone(), unrelated];
    let forks = find_record_forks(&id.public_key_bytes(), &candidates);
    assert_eq!(forks.len(), 1);
    let (x, y) = forks[0];
    assert_eq!(x.payload.value, a.payload.value);
    assert_eq!(y.payload.value, b.payload.value);
}

#[test]
fn find_record_forks_ignores_republish_and_invalid() {
    let id = Identity::generate().unwrap();
    let original = make_record(&id, 5, 1_000);
    let republished = make_record(&id, 5, 2_000);

    let mut forged = make_record(&id, 5, 1_000);
    forged.payload.value = bytes_to_cid(b"forged head");

    let other = Identity::generate().unwrap();
    let theirs = make_record(&other, 5, 1_000);

    let candidates = [original, republished, forged, theirs];
    assert!(find_record_forks(&id.public_key_bytes(), &candidates).is_empty());
}

#[test]
fn select_best_tie_keeps_first() {
    let id = Identity::generate().unwrap();
    let a = make_record(&id, 5, 1_000);
    let b = create_ipns_record(
        &id,
        5,
        bytes_to_cid(b"other head"),
        1_000,
        None,
        String::new(),
    );
    let candidates = [a.clone(), b];
    let best = select_best(&id.public_key_bytes(), &candidates).unwrap();
    assert_eq!(best.payload.value, a.payload.value);
}

#[test]
fn forks_come_in_order() {
    let id = Identity::from_seed(&[5u8; 32]);
    let at = |name: &[u8]| {
        create_ipns_record(&id, 1, bytes_to_cid(name), 10, None, String::new())
    };
    let candidates = [at(b"a"), at(b"b"), at(b"a"), at(b"c")];
    let forks = find_record_forks(&id.public_key_bytes(), &candidates);
    let a = bytes_to_cid(b"a");
    let b = bytes_to_cid(b"b");
    let c = bytes_to_cid(b"c");
    let found: Vec<_> = forks
        .iter()
        .map(|(x, y)| (x.payload.value.clone(), y.payload.value.clone()))
        .collect();
    assert_eq!(
        found,
        vec![
            (a.clone(), b.clone()),
            (a.clone(), c.clone()),
            (b.clone(), a.clone()),
            (b, c.clone()),
            (a, c),
        ]
    );
}

#[test]
fn more_candidates_never_make_the_choice_older() {
    let id = Identity::from_seed(&[6u8; 32]);
    let key = id.public_key_bytes();
    let some = [make_record(&id, 4, 10)];
    let all = [
        make_record(&id, 2, 99),
        make_record(&id, 4, 10),
        make_record(&id, 3, 50),
    ];
    assert_eq!(select_best(&key, &some).unwrap().payload.sequence, 4);
    assert_eq!(select_best(&key, &all).unwrap().payload.sequence, 4);
}

#[test]
fn records_live_for_two_days() {
    assert_eq!(RECORD_LIFETIME_MS, 48 * 60 * 60 * 1000);
}

#[test]
fn undecodable_records_say_why() {
    // A map without entries.
    let e = record_from_bytes(&[0xa0]).unwrap_err();
    assert_eq!(e, HeadError::Decode("not a head record".to_string()));
    assert_eq!(
        e.to_string(),
        "failed to decode IPNS head record: not a head record"
    );
}

#[test]
fn record_block_is_canonical() {
    // The payload's keys come by length and then by the alphabet.
    let id = Identity::from_seed(&[8u8; 32]);
    let record = create_ipns_record(&id, 2, bytes_to_cid(b"h"), 3, None, "N".to_string());
    let bytes = record_to_bytes(&record);
    let keys: Vec<&[u8]> = vec![
        b"\x67payload",
        b"\x64name",
        b"\x65value",
        b"\x68sequence\x02",
        b"\x68validity\x03",
        b"\x6bprofile_cid\xf6",
        b"\x6cdisplay_name\x61N",
        b"\x69signature\x58\x40",
    ];
    let mut from = 0;
    for key in keys {
        let at = bytes[from..]
            .windows(key.len())
            .position(|w| w == key)
            .unwrap();
        from += at + key.len();
    }
    assert_eq!(from + 64, bytes.len());
}
