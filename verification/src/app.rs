//! The application core: accounts, posts, follows, and what comes of head records.
//!
//! Everything here works on the store and on plain values. What has to go out to the network
//! or to the user is returned.

use crate::cid::{cid_text, Cid};
use crate::dag_cbor::cid_option;
use crate::event::{
    chain_link_error, clone_optional_cid, envelope_cid, envelope_signed, event_cid, EnvelopeModel,
    EventKind, KindModel,
};
use crate::head::{
    create_ipns_record, record_block, record_signed, record_to_bytes, signed_record, IpnsRecord,
    RecordModel, RECORD_LIFETIME_MS,
};
use crate::identity::{create_envelope_at, ed25519_public, signed_envelope, Identity};
use crate::keystore::{blob_error, passphrase_fits, seed_in_blob, Keystore, KeystoreError};
use crate::order::{newest_first, newest_first_sorts};
use crate::projection::{has_event, is_newest_among, newest_exists, newest_is_unique};
use crate::store::model::{
    events_by, follows_account, forks_of, is_head_of, layer_name, profiles_by, shown_follows,
    shown_name_at, shown_posts_by, shown_timeline, with_event, with_follow, with_head,
    with_head_cid, without_follow, ForkModel, HeadModel, ShownFollow, ShownPost, StoreModel,
};
use crate::store::{
    clone_opt_text, opt_text, shows_fork, text_eq, FollowRow, PostRow, Store, StoreError,
    TimelineRow,
};
use crate::sync::model::{begun, head_event, head_event_at, LimitsModel, NextModel};
use crate::sync::{handle_head_record, step_is, step_wf, SyncError, SyncOutcome, SyncStep};
use crate::util::{bytes_to_hex, hex_roundtrip, hex_text, is_hex_digit, is_pubkey_hex};
use vstd::prelude::*;
use vstd::string::*;

pub mod laws;

verus! {

// ---------------------------------------------------------------------------
// Errors
// ---------------------------------------------------------------------------

/// Why a command failed.
#[derive(Debug, PartialEq, Eq)]
pub enum AppError {
    NotUnlocked,
    AlreadyExists,
    /// What the user gave is not usable.
    InvalidInput(String),
    Keystore(KeystoreError),
    Store(StoreError),
    Sync(SyncError),
}

impl AppError {
    /// The message of the error. Those of the lower layers come through as they are.
    pub open spec fn message(&self) -> Seq<char> {
        match *self {
            AppError::NotUnlocked => "account not unlocked"@,
            AppError::AlreadyExists => "account already exists; use unlock_account"@,
            AppError::InvalidInput(text) => text@,
            AppError::Keystore(e) => e.message(),
            AppError::Store(e) => e.message(),
            AppError::Sync(e) => e.message(),
        }
    }

    /// The message of the error.
    pub fn to_string(&self) -> (res: String)
        ensures
            res@ == self.message(),
    {
        match self {
            AppError::NotUnlocked => "account not unlocked".to_owned(),
            AppError::AlreadyExists => "account already exists; use unlock_account".to_owned(),
            AppError::InvalidInput(text) => text.clone(),
            AppError::Keystore(e) => e.to_string(),
            AppError::Store(e) => e.to_string(),
            AppError::Sync(e) => e.to_string(),
        }
    }
}

// ---------------------------------------------------------------------------
// Public keys as users write them
// ---------------------------------------------------------------------------

/// Whether a character is white space.
pub open spec fn is_space(c: char) -> bool {
    let n = c as int;
    ||| 0x09 <= n <= 0x0d
    ||| n == 0x20
    ||| n == 0x85
    ||| n == 0xa0
    ||| n == 0x1680
    ||| 0x2000 <= n <= 0x200a
    ||| n == 0x2028
    ||| n == 0x2029
    ||| n == 0x202f
    ||| n == 0x205f
    ||| n == 0x3000
}

/// A text without the white space in front.
pub open spec fn trim_front(s: Seq<char>) -> Seq<char>
    decreases s.len(),
{
    if s.len() > 0 && is_space(s[0]) {
        trim_front(s.skip(1))
    } else {
        s
    }
}

/// A text without the white space behind.
pub open spec fn trim_back(s: Seq<char>) -> Seq<char>
    decreases s.len(),
{
    if s.len() > 0 && is_space(s.last()) {
        trim_back(s.drop_last())
    } else {
        s
    }
}

/// A character in lower case, as far as it is an ASCII letter.
pub open spec fn lower(c: char) -> char {
    if 'A' <= c && c <= 'Z' {
        ((c as int) + 32) as char
    } else {
        c
    }
}

/// A text in lower case, as far as its letters are ASCII.
pub open spec fn lower_text(s: Seq<char>) -> Seq<char> {
    s.map_values(|c: char| lower(c))
}

/// The public key, in lower case, that a user's text stands for: 64 hexadecimal digits, with
/// white space around them.
pub open spec fn normalized_pubkey(input: Seq<char>) -> Option<Seq<char>> {
    let t = trim_back(trim_front(input));
    if is_pubkey_hex(t) {
        Some(lower_text(t))
    } else {
        None
    }
}

fn is_space_char(c: char) -> (res: bool)
    ensures
        res == is_space(c),
{
    let n: u32 = c as u32;
    (0x09 <= n && n <= 0x0d) || n == 0x20 || n == 0x85 || n == 0xa0 || n == 0x1680 || (0x2000 <= n
        && n <= 0x200a) || n == 0x2028 || n == 0x2029 || n == 0x202f || n == 0x205f || n == 0x3000
}

pub(crate) proof fn trim_front_at(s: Seq<char>, i: int)
    requires
        0 <= i <= s.len(),
        forall|j: int| 0 <= j < i ==> is_space(#[trigger] s[j]),
        i == s.len() || !is_space(s[i]),
    ensures
        trim_front(s) == s.skip(i),
    decreases s.len(),
{
    if i > 0 {
        assert(is_space(s[0]));
        let rest = s.skip(1);
        assert forall|j: int| 0 <= j < i - 1 implies is_space(#[trigger] rest[j]) by {
            assert(rest[j] == s[j + 1]);
        }
        if i < s.len() {
            assert(rest[i - 1] == s[i]);
        }
        trim_front_at(rest, i - 1);
        assert(rest.skip(i - 1) =~= s.skip(i));
    } else {
        assert(s.skip(0) =~= s);
    }
}

pub(crate) proof fn trim_back_at(s: Seq<char>, n: int)
    requires
        0 <= n <= s.len(),
        forall|j: int| n <= j < s.len() ==> is_space(#[trigger] s[j]),
        n == 0 || !is_space(s[n - 1]),
    ensures
        trim_back(s) == s.take(n),
    decreases s.len(),
{
    if n < s.len() {
        assert(is_space(s[s.len() - 1]));
        let rest = s.drop_last();
        assert forall|j: int| n <= j < rest.len() implies is_space(#[trigger] rest[j]) by {
            assert(rest[j] == s[j]);
        }
        if n > 0 {
            assert(rest[n - 1] == s[n - 1]);
        }
        trim_back_at(rest, n);
        assert(rest.take(n) =~= s.take(n));
    } else {
        assert(s.take(n) =~= s);
    }
}

/// The public key that a user's text stands for, in lower case.
pub fn normalize_pubkey_hex(input: &str) -> (res: Result<String, AppError>)
    ensures
        match res {
            Ok(s) => normalized_pubkey(input@) == Some(s@),
            Err(e) => normalized_pubkey(input@) is None && (e matches AppError::InvalidInput(t) && t@
                == "public key must be a 64-char hex string"@),
        },
{
    let total: usize = input.unicode_len();
    let mut start: usize = 0;
    while start < total && is_space_char(input.get_char(start))
        invariant
            start <= total == input@.len(),
            forall|j: int| 0 <= j < start ==> is_space(#[trigger] input@[j]),
        decreases total - start,
    {
        start += 1;
    }
    proof {
        trim_front_at(input@, start as int);
    }
    let ghost front = trim_front(input@);
    let mut end: usize = total;
    while end > start && is_space_char(input.get_char(end - 1))
        invariant
            start <= end <= total == input@.len(),
            front == input@.skip(start as int),
            forall|j: int| end - start <= j < front.len() ==> is_space(#[trigger] front[j]),
        decreases end,
    {
        assert(front[end - start - 1] == input@[end - 1]);
        end -= 1;
    }
    let ghost t = trim_back(front);
    proof {
        if end > start {
            assert(front[end - start - 1] == input@[end - 1]);
        }
        trim_back_at(front, end - start);
        assert(t =~= input@.subrange(start as int, end as int));
    }
    if end - start != 64 {
        return Err(bad_pubkey());
    }
    let mut out = String::new();
    let mut i: usize = start;
    while i < end
        invariant
            start <= i <= end <= total == input@.len(),
            t == trim_back(trim_front(input@)),
            t == input@.subrange(start as int, end as int),
            forall|j: int| 0 <= j < i - start ==> is_hex_digit(#[trigger] t[j]),
            out@ =~= lower_text(t.take(i - start)),
        decreases end - i,
    {
        let c = input.get_char(i);
        assert(t[i - start] == c);
        let n: u32 = c as u32;
        if 48 <= n && n <= 57 || 97 <= n && n <= 102 {
            out.push(c);
        } else if 65 <= n && n <= 70 {
            let l = (n as u8 + 32) as char;
            out.push(l);
            assert(l == lower(c));
        } else {
            assert(!is_hex_digit(t[i - start]));
            return Err(bad_pubkey());
        }
        assert(t.take(i + 1 - start) =~= t.take(i - start).push(c));
        i += 1;
    }
    assert(t.take(i - start) =~= t);
    Ok(out)
}

fn bad_pubkey() -> (res: AppError)
    ensures
        res matches AppError::InvalidInput(t) && t@ == "public key must be a 64-char hex string"@,
{
    AppError::InvalidInput("public key must be a 64-char hex string".to_owned())
}

/// The hexadecimal text of a key is already in the form in which keys are kept.
pub proof fn hex_text_is_normal(key: Seq<u8>)
    requires
        key.len() == 32,
    ensures
        normalized_pubkey(hex_text(key)) == Some(hex_text(key)),
{
    hex_roundtrip(key);
    let t = hex_text(key);
    assert forall|i: int| 0 <= i < t.len() implies lower(#[trigger] t[i]) == t[i] by {
        let b = key[i / 2] as int;
        assert(0 <= b / 16 < 16 && 0 <= b % 16 < 16);
    }
    assert(is_hex_digit(t[0]) && is_hex_digit(t[63]));
    trim_front_at(t, 0);
    assert(t.skip(0) =~= t);
    trim_back_at(t, t.len() as int);
    assert(t.take(t.len() as int) =~= t);
    assert(lower_text(t) =~= t);
}

// ---------------------------------------------------------------------------
// The unlocked account
// ---------------------------------------------------------------------------

/// An account that is unlocked.
pub struct ActiveAccount {
    identity: Identity,
    next_seq: u64,
    head_cid: Option<Cid>,
}

/// Model of [`ActiveAccount`].
#[verifier::ext_equal]
pub struct AccountState {
    pub seed: Seq<u8>,
    /// The position of the next event.
    pub next_seq: u64,
    /// The CID of the newest event.
    pub head: Option<Seq<u8>>,
}

impl View for ActiveAccount {
    type V = AccountState;

    closed spec fn view(&self) -> AccountState {
        AccountState {
            seed: self.identity.seed(),
            next_seq: self.next_seq,
            head: cid_option(self.head_cid),
        }
    }
}

/// The key of an account in the store.
pub open spec fn account_key(seed: Seq<u8>) -> Seq<char> {
    hex_text(ed25519_public(seed))
}

/// The state of an account as its newest event in the store leaves it.
pub open spec fn state_from_store(s: StoreModel, seed: Seq<u8>) -> AccountState {
    match head_event(s, account_key(seed)) {
        Some(h) => AccountState {
            seed,
            next_seq: (h.payload.seq + 1) as u64,
            head: Some(event_cid(h)),
        },
        None => AccountState { seed, next_seq: 0, head: None },
    }
}

/// The CID of the newest profile event of the account `key`.
pub open spec fn profile_cid_of(s: StoreModel, key: Seq<char>) -> Option<Seq<u8>> {
    if exists|i: int| is_newest_among(s.events, profiles_by(key), i) {
        Some(event_cid(s.events[choose|i: int| is_newest_among(s.events, profiles_by(key), i)]))
    } else {
        None
    }
}

/// The head record that an account issues for itself: with its name and profile as they
/// stand, and good for as long as records are.
pub open spec fn own_record(
    s: StoreModel,
    seed: Seq<u8>,
    sequence: u64,
    head: Seq<u8>,
    now: i64,
) -> RecordModel {
    let key = account_key(seed);
    signed_record(
        seed,
        sequence,
        head,
        (now + RECORD_LIFETIME_MS) as i64,
        profile_cid_of(s, key),
        match shown_name_at(s.accounts, key) {
            Some(name) => name,
            None => Seq::empty(),
        },
    )
}

/// The store after an account issued a head record for itself.
pub open spec fn with_own_record(s: StoreModel, r: RecordModel, now: i64) -> StoreModel {
    with_head(
        s,
        hex_text(r.payload.name),
        HeadModel {
            sequence: r.payload.sequence,
            validity: r.payload.validity,
            record_bytes: record_block(r),
            updated_at: now,
        },
    )
}

/// Whether a time leaves room for the life of a record.
pub open spec fn record_time_fits(now: i64) -> bool {
    now + RECORD_LIFETIME_MS <= i64::MAX
}

impl ActiveAccount {
    /// The account's invariant: there is a newest event if and only if there is any.
    pub closed spec fn wf(&self) -> bool {
        self.head_cid is Some <==> self.next_seq > 0
    }

    /// An account without events.
    pub fn new(identity: Identity) -> (res: Self)
        ensures
            res.wf(),
            res@ == (AccountState { seed: identity.seed(), next_seq: 0, head: None }),
    {
        ActiveAccount { identity, next_seq: 0, head_cid: None }
    }

    /// An account as its newest event in the store leaves it; `None` if that event has the
    /// highest position there is.
    pub fn restore(identity: Identity, store: &Store) -> (res: Option<Self>)
        requires
            store.wf(),
        ensures
            match res {
                Some(a) => a.wf() && a@ == state_from_store(store@, identity.seed()) && (head_event(
                    store@,
                    account_key(identity.seed()),
                ) matches Some(h) ==> h.payload.seq < u64::MAX),
                None => head_event(store@, account_key(identity.seed())) matches Some(h)
                    && h.payload.seq == u64::MAX,
            },
    {
        let key = bytes_to_hex(identity.public_key_bytes().as_slice());
        match store.head_of(key.as_str()) {
            Some((seq, cid)) => {
                proof {
                    let i = choose|i: int| #[trigger]
                        is_head_of(store@, key@, i) && seq == store@.events[i].payload.seq && cid@
                            == event_cid(store@.events[i]);
                    head_event_at(store@, key@, i);
                }
                if seq == u64::MAX {
                    return None;
                }
                Some(ActiveAccount { identity, next_seq: seq + 1, head_cid: Some(cid) })
            },
            None => {
                assert forall|i: int| !is_head_of(store@, key@, i) by {}
                Some(ActiveAccount { identity, next_seq: 0, head_cid: None })
            },
        }
    }

    /// The hexadecimal public key of the account.
    pub fn pubkey_hex(&self) -> (res: String)
        ensures
            res@ == account_key(self@.seed),
    {
        bytes_to_hex(self.identity.public_key_bytes().as_slice())
    }

    /// The position of the next event.
    pub fn next_seq(&self) -> (res: u64)
        ensures
            res == self@.next_seq,
    {
        self.next_seq
    }

    /// The CID of the newest event.
    pub fn head_cid(&self) -> (res: Option<Cid>)
        ensures
            cid_option(res) == self@.head,
    {
        clone_optional_cid(&self.head_cid)
    }
}

/// The CID of the newest profile event of an account.
fn profile_cid(store: &Store, key: &str) -> (res: Option<Cid>)
    requires
        store.wf(),
    ensures
        cid_option(res) == profile_cid_of(store@, key@),
{
    let res = store.latest_profile_of(key);
    proof {
        let among = profiles_by(key@);
        if res is Some {
            let cid = res->0;
            let i = choose|i: int| #[trigger]
                is_newest_among(store@.events, among, i) && cid@ == event_cid(store@.events[i]);
            let j = choose|j: int| is_newest_among(store@.events, among, j);
            newest_is_unique(store@.events, among, i, j);
        } else {
            assert forall|i: int| !is_newest_among(store@.events, among, i) by {}
        }
    }
    res
}

/// Signs the head record of one's own account.
pub fn build_head_record(
    store: &Store,
    identity: &Identity,
    sequence: u64,
    head_cid: Cid,
    now_ms: i64,
) -> (res: IpnsRecord)
    requires
        store.wf(),
        record_time_fits(now_ms),
    ensures
        res@ == own_record(store@, identity.seed(), sequence, head_cid@, now_ms),
        record_signed(res@),
{
    let key = bytes_to_hex(identity.public_key_bytes().as_slice());
    let display_name = match store.get_account(key.as_str()) {
        Some(a) => a.display_name,
        None => String::new(),
    };
    let profile = profile_cid(store, key.as_str());
    create_ipns_record(
        identity,
        sequence,
        head_cid,
        now_ms + RECORD_LIFETIME_MS,
        profile,
        display_name,
    )
}

/// Keeps the head record of one's own account.
pub fn store_head_record(store: &mut Store, record: &IpnsRecord, now_ms: i64)
    requires
        old(store).wf(),
    ensures
        final(store).wf(),
        final(store)@ == with_own_record(old(store)@, record@, now_ms),
{
    let key = bytes_to_hex(record.payload.name.as_slice());
    let bytes = record_to_bytes(record);
    store.upsert_head_record(
        key.as_str(),
        record.payload.sequence,
        record.payload.validity,
        bytes.as_slice(),
        now_ms,
    );
}

/// What comes of issuing the head record of an account again: the record, if the account has
/// events, and the store.
pub open spec fn republished(s: StoreModel, a: AccountState, now: i64) -> (
    Option<RecordModel>,
    StoreModel,
) {
    match a.head {
        Some(head) => {
            let r = own_record(s, a.seed, (a.next_seq - 1) as u64, head, now);
            (Some(r), with_own_record(s, r, now))
        },
        None => (None, s),
    }
}

/// The model of an optional record.
pub open spec fn record_option(record: Option<IpnsRecord>) -> Option<RecordModel> {
    match record {
        Some(r) => Some(r@),
        None => None,
    }
}

fn republish_account(account: &ActiveAccount, store: &mut Store, now_ms: i64) -> (res: Option<
    IpnsRecord,
>)
    requires
        account.wf(),
        old(store).wf(),
        record_time_fits(now_ms),
    ensures
        final(store).wf(),
        (record_option(res), final(store)@) == republished(old(store)@, account@, now_ms),
{
    match &account.head_cid {
        Some(head) => {
            let record = build_head_record(
                store,
                &account.identity,
                account.next_seq - 1,
                head.clone(),
                now_ms,
            );
            store_head_record(store, &record, now_ms);
            Some(record)
        },
        None => None,
    }
}

/// Issues the head record of the unlocked account again, with a new expiry. Without an
/// unlocked account, or without events, there is nothing to issue. The record is to be
/// published.
pub fn republish_head(account: &Option<ActiveAccount>, store: &mut Store, now_ms: i64) -> (res:
    Option<IpnsRecord>)
    requires
        account matches Some(a) ==> a.wf(),
        old(store).wf(),
        record_time_fits(now_ms),
    ensures
        final(store).wf(),
        (record_option(res), final(store)@) == match account {
            Some(a) => republished(old(store)@, a@, now_ms),
            None => (None::<RecordModel>, old(store)@),
        },
{
    match account {
        Some(a) => republish_account(a, store, now_ms),
        None => None,
    }
}

/// A post that was made: its CID as text, and the head record to be published.
pub struct PostCreated {
    pub cid: String,
    pub record: IpnsRecord,
}

/// The event of a new post.
pub open spec fn new_post_event(a: AccountState, text: Seq<char>, now: i64) -> EnvelopeModel {
    signed_envelope(a.seed, a.next_seq, a.head, KindModel::Post { text }, now)
}

/// The account after a new post.
pub open spec fn account_after_post(a: AccountState, text: Seq<char>, now: i64) -> AccountState {
    AccountState {
        next_seq: (a.next_seq + 1) as u64,
        head: Some(event_cid(new_post_event(a, text, now))),
        ..a
    }
}

/// The store after a new post, before the head record is kept.
pub open spec fn store_after_post(
    s: StoreModel,
    a: AccountState,
    text: Seq<char>,
    now: i64,
) -> StoreModel {
    let e = new_post_event(a, text, now);
    with_head_cid(with_event(s, e, now), account_key(a.seed), cid_text(event_cid(e)))
}

/// Signs a post as the next event of the unlocked account, keeps it, and issues the head
/// record for it.
pub fn create_post(
    account: &mut Option<ActiveAccount>,
    store: &mut Store,
    text: String,
    now_ms: i64,
) -> (res: Result<PostCreated, AppError>)
    requires
        *old(account) matches Some(a) ==> a.wf() && a@.next_seq < u64::MAX,
        old(store).wf(),
        record_time_fits(now_ms),
    ensures
        final(store).wf(),
        *final(account) matches Some(a) ==> a.wf(),
        match *old(account) {
            None => {
                &&& res matches Err(e) && e == AppError::NotUnlocked
                &&& *final(account) == *old(account)
                &&& final(store)@ == old(store)@
            },
            Some(a) => {
                let e = new_post_event(a@, text@, now_ms);
                let after = store_after_post(old(store)@, a@, text@, now_ms);
                let r = own_record(after, a@.seed, a@.next_seq, event_cid(e), now_ms);
                &&& res matches Ok(p) && p.cid@ == cid_text(event_cid(e)) && p.record@ == r
                &&& envelope_signed(e)
                &&& record_signed(r)
                &&& *final(account) matches Some(b) && b@ == account_after_post(a@, text@, now_ms)
                &&& final(store)@ == with_own_record(after, r, now_ms)
            },
        },
{
    match account {
        None => Err(AppError::NotUnlocked),
        Some(a) => {
            let seq: u64 = a.next_seq;
            let prev = clone_optional_cid(&a.head_cid);
            let envelope = create_envelope_at(
                &a.identity,
                seq,
                prev,
                EventKind::Post { text },
                now_ms,
            );
            let cid = envelope_cid(&envelope);
            let cid_str = cid.to_string();
            store.insert_event(&envelope, now_ms);
            let key = a.pubkey_hex();
            store.update_head_cid(key.as_str(), cid_str.as_str());
            a.next_seq = seq + 1;
            a.head_cid = Some(cid.clone());
            let record = build_head_record(store, &a.identity, seq, cid, now_ms);
            store_head_record(store, &record, now_ms);
            Ok(PostCreated { cid: cid_str, record })
        },
    }
}

/// Whether an account stands where its newest event in the store leaves it.
pub open spec fn in_step(s: StoreModel, a: AccountState) -> bool {
    state_from_store(s, a.seed) == a && (head_event(s, account_key(a.seed)) matches Some(h)
        ==> h.payload.seq < u64::MAX)
}

/// Posts form a chain: each has the place after the one before it, points at it, and fits the
/// author.
pub proof fn posts_form_a_chain(
    s: StoreModel,
    a: AccountState,
    text: Seq<char>,
    now: i64,
    next_text: Seq<char>,
    later: i64,
)
    requires
        in_step(s, a),
        a.next_seq < u64::MAX,
    ensures
        ({
            let e = new_post_event(a, text, now);
            let next = new_post_event(account_after_post(a, text, now), next_text, later);
            let author = ed25519_public(a.seed);
            &&& chain_link_error(e, author, a.next_seq) is None
            &&& chain_link_error(next, author, (a.next_seq + 1) as u64) is None
            &&& next.payload.prev == Some(event_cid(e))
        }),
{
}

/// Unlocking takes up the chain where the last post left it: after a post, the account that
/// is restored from the store is the account after the post. The new event must not share its
/// CID with another.
pub proof fn unlock_takes_up_the_chain(
    s: StoreModel,
    a: AccountState,
    text: Seq<char>,
    r: RecordModel,
    now: i64,
)
    requires
        in_step(s, a),
        a.next_seq < u64::MAX,
        !has_event(s.events, event_cid(new_post_event(a, text, now))),
    ensures
        state_from_store(
            with_own_record(store_after_post(s, a, text, now), r, now),
            a.seed,
        ) == account_after_post(a, text, now),
{
    let e = new_post_event(a, text, now);
    let key = account_key(a.seed);
    let after = with_own_record(store_after_post(s, a, text, now), r, now);
    let n = s.events.len() as int;
    assert(after.events == s.events.push(e));
    assert forall|j: int| 0 <= j < after.events.len() && events_by(key)(
        #[trigger] after.events[j],
    ) implies {
        &&& after.events[j].payload.seq <= e.payload.seq
        &&& j < n ==> after.events[j].payload.seq < e.payload.seq
    } by {
        if j < n {
            assert(after.events[j] == s.events[j]);
            newest_exists(s.events, events_by(key), j);
            let i = choose|i: int| is_newest_among(s.events, events_by(key), i);
            assert(is_head_of(s, key, i));
            head_event_at(s, key, i);
        }
    }
    assert(after.events[n] == e);
    assert(is_head_of(after, key, n));
    head_event_at(after, key, n);
}

/// Makes a new account, unless there is one: the account, its public key, and the blob to be
/// saved.
pub fn setup_account(keystore_exists: bool, passphrase: &str) -> (res: Result<
    (ActiveAccount, String, Vec<u8>),
    AppError,
>)
    ensures
        match res {
            Ok((account, pubkey_hex, blob)) => {
                &&& !keystore_exists
                &&& account.wf()
                &&& account@.next_seq == 0
                &&& account@.head is None
                &&& pubkey_hex@ == account_key(account@.seed)
                &&& seed_in_blob(passphrase@, blob@) matches Ok(s) && s
                    == account@.seed
            },
            Err(AppError::AlreadyExists) => keystore_exists,
            Err(AppError::Keystore(e)) => !keystore_exists && (e == KeystoreError::RngUnavailable
                || (e == KeystoreError::KeyDerivation && !passphrase_fits(
                passphrase@,
            ))),
            Err(_) => false,
        },
{
    if keystore_exists {
        return Err(AppError::AlreadyExists);
    }
    match Keystore::create(passphrase) {
        Ok((keystore, pubkey, blob)) => {
            let hex = bytes_to_hex(pubkey.as_slice());
            Ok((ActiveAccount::new(keystore.into_identity()), hex, blob))
        },
        Err(e) => Err(AppError::Keystore(e)),
    }
}

/// An account that was unlocked, with what is to be done about it on the network.
pub struct Unlocked {
    pub account: ActiveAccount,
    pub pubkey_hex: String,
    /// The keys of the accounts followed, the latest first: each is to be subscribed to and
    /// fetched.
    pub follows: Vec<String>,
    /// The head record to be published.
    pub record: Option<IpnsRecord>,
}

/// The keys of the accounts followed, the latest first.
pub open spec fn followed_keys(s: StoreModel) -> Seq<Seq<char>> {
    shown_follows(s).map_values(|f: ShownFollow| f.pubkey)
}

/// The views of texts.
pub open spec fn text_views(texts: Seq<String>) -> Seq<Seq<char>> {
    texts.map_values(|t: String| t@)
}

fn list_follows(store: &Store) -> (res: Vec<String>)
    requires
        store.wf(),
    ensures
        text_views(res@) == followed_keys(store@),
{
    let rows = store.get_follows();
    let ghost keys = followed_keys(store@);
    let mut out: Vec<String> = Vec::new();
    let mut i: usize = 0;
    while i < rows.len()
        invariant
            i <= rows@.len() == keys.len(),
            rows@.map_values(|r: FollowRow| r@) == shown_follows(store@),
            keys == followed_keys(store@),
            out@.len() == i,
            forall|j: int| 0 <= j < i ==> (#[trigger] out@[j])@ == keys[j],
        decreases rows@.len() - i,
    {
        assert(rows@.map_values(|r: FollowRow| r@)[i as int] == rows@[i as int]@);
        out.push(rows[i].pubkey.clone());
        i += 1;
    }
    assert(text_views(out@) =~= keys);
    out
}

/// Unlocks an account: opens its blob, takes up its chain where the store leaves it, and
/// issues its head record again. What is missing of the accounts followed is to be fetched, as
/// nobody sends it again.
pub fn unlock_account(passphrase: &str, blob: &[u8], store: &mut Store, now_ms: i64) -> (res: Result<
    Unlocked,
    AppError,
>)
    requires
        old(store).wf(),
        record_time_fits(now_ms),
    ensures
        final(store).wf(),
        match seed_in_blob(passphrase@, blob@) {
            Err(fault) => {
                &&& res matches Err(AppError::Keystore(e)) && e == blob_error(fault)
                &&& final(store)@ == old(store)@
            },
            Ok(seed) => if head_event(old(store)@, account_key(seed)) matches Some(h)
                && h.payload.seq == u64::MAX {
                &&& res matches Err(AppError::InvalidInput(t)) && t@ == "event chain is full"@
                &&& final(store)@ == old(store)@
            } else {
                let a = state_from_store(old(store)@, seed);
                &&& res matches Ok(u) && {
                    &&& u.account.wf()
                    &&& u.account@ == a
                    &&& u.pubkey_hex@ == account_key(seed)
                    &&& text_views(u.follows@) == followed_keys(old(store)@)
                    &&& (record_option(u.record), final(store)@) == republished(
                        old(store)@,
                        a,
                        now_ms,
                    )
                }
            },
        },
{
    match Keystore::load(passphrase, blob) {
        Ok(keystore) => {
            let identity = keystore.into_identity();
            let pubkey_hex = bytes_to_hex(identity.public_key_bytes().as_slice());
            match ActiveAccount::restore(identity, store) {
                Some(account) => {
                    let follows = list_follows(store);
                    let record = republish_account(&account, store, now_ms);
                    Ok(Unlocked { account, pubkey_hex, follows, record })
                },
                None => Err(AppError::InvalidInput("event chain is full".to_owned())),
            }
        },
        Err(e) => Err(AppError::Keystore(e)),
    }
}

/// Unlocking goes on where the chain ends. If the account has events, its head record goes out
/// with the position and the CID of the newest, and the next post has the place after it and
/// points at it. If it has none, nothing goes out, and the next post begins the chain.
pub proof fn unlocked_account_goes_on(
    s: StoreModel,
    seed: Seq<u8>,
    now: i64,
    text: Seq<char>,
    later: i64,
)
    requires
        head_event(s, account_key(seed)) matches Some(h) ==> h.payload.seq < u64::MAX,
    ensures
        ({
            let a = state_from_store(s, seed);
            let (record, after) = republished(s, a, now);
            let next = new_post_event(a, text, later).payload;
            match head_event(s, account_key(seed)) {
                Some(h) => {
                    &&& record matches Some(r) && r.payload.name == ed25519_public(seed)
                        && r.payload.sequence == h.payload.seq && r.payload.value == event_cid(h)
                    &&& next.seq == h.payload.seq + 1
                    &&& next.prev == Some(event_cid(h))
                },
                None => {
                    &&& record is None
                    &&& after == s
                    &&& next.seq == 0
                    &&& next.prev is None
                },
            }
        }),
{
}

/// The keys that are subscribed to after unlocking are those of the accounts followed.
pub proof fn every_follow_is_subscribed(s: StoreModel, key: Seq<char>)
    ensures
        followed_keys(s).contains(key) <==> follows_account(s, key),
{
    let times = s.follows.map_values(|f: (Seq<char>, i64)| f.1 as int);
    let order = newest_first(times, s.follows.len());
    let keys = followed_keys(s);
    newest_first_sorts(times, s.follows.len());
    assert(keys.len() == order.len());
    assert forall|a: int| 0 <= a < keys.len() implies #[trigger] keys[a] == s.follows[order[a]].0 by {}
    if keys.contains(key) {
        let a = choose|a: int| 0 <= a < keys.len() && keys[a] == key;
        assert(s.follows[order[a]].0 == key);
    }
    if follows_account(s, key) {
        let i = choose|i: int| 0 <= i < s.follows.len() && (#[trigger] s.follows[i]).0 == key;
        assert(order.contains(i));
        let a = choose|a: int| 0 <= a < order.len() && order[a] == i;
        assert(keys[a] == key);
    }
}

// ---------------------------------------------------------------------------
// Follows
// ---------------------------------------------------------------------------

/// The store after the account with the key `own` asked to follow the key that a text stands for:
/// any key but its own.
pub open spec fn store_after_follow(
    s: StoreModel,
    own: Option<Seq<char>>,
    input: Seq<char>,
    now: i64,
) -> StoreModel {
    match (normalized_pubkey(input), own) {
        (Some(key), Some(me)) => if key == me {
            s
        } else {
            with_follow(s, key, now)
        },
        _ => s,
    }
}

/// The key of the account that is unlocked.
pub open spec fn own_key(account: Option<ActiveAccount>) -> Option<Seq<char>> {
    match account {
        Some(a) => Some(account_key(a@.seed)),
        None => None,
    }
}

/// The store after a request to follow the key that a text stands for no longer.
pub open spec fn store_after_unfollow(s: StoreModel, input: Seq<char>) -> StoreModel {
    match normalized_pubkey(input) {
        Some(key) => without_follow(s, key),
        None => s,
    }
}

/// Follows an account. The key to subscribe to and to fetch is returned.
pub fn follow_user(
    account: &Option<ActiveAccount>,
    store: &mut Store,
    pubkey: &str,
    now_ms: i64,
) -> (res: Result<String, AppError>)
    requires
        old(store).wf(),
    ensures
        final(store).wf(),
        match normalized_pubkey(pubkey@) {
            None => {
                &&& res matches Err(AppError::InvalidInput(t)) && t@
                    == "public key must be a 64-char hex string"@
                &&& final(store)@ == old(store)@
            },
            Some(key) => match account {
                None => res matches Err(e) && e == AppError::NotUnlocked && final(store)@ == old(
                    store,
                )@,
                Some(a) => if key == account_key(a@.seed) {
                    &&& res matches Err(AppError::InvalidInput(t)) && t@
                        == "cannot follow yourself"@
                    &&& final(store)@ == old(store)@
                } else {
                    &&& res matches Ok(hex) && hex@ == key
                    &&& final(store)@ == with_follow(old(store)@, key, now_ms)
                },
            },
        },
        final(store)@ == store_after_follow(old(store)@, own_key(*account), pubkey@, now_ms),
{
    let key = match normalize_pubkey_hex(pubkey) {
        Ok(key) => key,
        Err(e) => return Err(e),
    };
    let own = match account {
        Some(a) => a.pubkey_hex(),
        None => return Err(AppError::NotUnlocked),
    };
    if text_eq(key.as_str(), own.as_str()) {
        return Err(AppError::InvalidInput("cannot follow yourself".to_owned()));
    }
    store.add_follow(key.as_str(), now_ms);
    Ok(key)
}

/// Stops following an account. The key to unsubscribe from is returned.
pub fn unfollow_user(store: &mut Store, pubkey: &str) -> (res: Result<String, AppError>)
    requires
        old(store).wf(),
    ensures
        final(store).wf(),
        match normalized_pubkey(pubkey@) {
            None => {
                &&& res matches Err(AppError::InvalidInput(t)) && t@
                    == "public key must be a 64-char hex string"@
                &&& final(store)@ == old(store)@
            },
            Some(key) => {
                &&& res matches Ok(hex) && hex@ == key
                &&& final(store)@ == without_follow(old(store)@, key)
            },
        },
        final(store)@ == store_after_unfollow(old(store)@, pubkey@),
{
    let key = match normalize_pubkey_hex(pubkey) {
        Ok(key) => key,
        Err(e) => return Err(e),
    };
    store.remove_follow(key.as_str());
    Ok(key)
}

// ---------------------------------------------------------------------------
// What is shown
// ---------------------------------------------------------------------------

/// The state of the application.
#[derive(Debug)]
pub struct AppStatus {
    /// Whether there is a keystore.
    pub setup: bool,
    /// Whether an account is unlocked.
    pub unlocked: bool,
}

/// The state of the application.
pub fn get_app_status(keystore_exists: bool, account: &Option<ActiveAccount>) -> (res: AppStatus)
    ensures
        res.setup == keystore_exists,
        res.unlocked == (account is Some),
{
    AppStatus { setup: keystore_exists, unlocked: account.is_some() }
}

/// A post as the user sees it.
#[derive(Debug)]
pub struct PostView {
    pub cid: String,
    pub author: String,
    pub text: String,
    pub timestamp: i64,
    pub edited: bool,
    pub deleted: bool,
    /// The name of the author, if there is one.
    pub author_display_name: Option<String>,
}

impl View for PostView {
    type V = (ShownPost, Option<Seq<char>>);

    open spec fn view(&self) -> (ShownPost, Option<Seq<char>>) {
        (
            ShownPost {
                cid: self.cid@,
                author: self.author@,
                text: self.text@,
                timestamp: self.timestamp,
                edited: self.edited,
                deleted: self.deleted,
            },
            opt_text(self.author_display_name),
        )
    }
}

impl From<TimelineRow> for PostView {
    fn from(r: TimelineRow) -> (res: Self) {
        PostView {
            cid: r.cid,
            author: r.author,
            text: r.text,
            timestamp: r.timestamp,
            edited: r.edited,
            deleted: r.deleted,
            author_display_name: r.display_name,
        }
    }
}

impl vstd::std_specs::convert::FromSpecImpl<TimelineRow> for PostView {
    open spec fn obeys_from_spec() -> bool {
        true
    }

    open spec fn from_spec(r: TimelineRow) -> Self {
        PostView {
            cid: r.cid,
            author: r.author,
            text: r.text,
            timestamp: r.timestamp,
            edited: r.edited,
            deleted: r.deleted,
            author_display_name: r.display_name,
        }
    }
}

/// An account followed as the user sees it.
#[derive(Debug)]
pub struct FollowView {
    pub pubkey: String,
    pub since: i64,
    pub display_name: Option<String>,
}

impl View for FollowView {
    type V = ShownFollow;

    open spec fn view(&self) -> ShownFollow {
        ShownFollow {
            pubkey: self.pubkey@,
            since: self.since,
            display_name: opt_text(self.display_name),
        }
    }
}

/// A fork as the user sees it.
#[derive(Debug)]
pub struct ForkView {
    pub author: String,
    pub layer: String,
    pub seq: u64,
    pub cid_a: String,
    pub cid_b: String,
    pub observed_at: i64,
}

/// Whether a view shows the given fork.
pub open spec fn views_fork(v: ForkView, f: ForkModel) -> bool {
    &&& v.author@ == f.author
    &&& v.layer@ == layer_name(f.layer)
    &&& v.seq == f.seq
    &&& v.cid_a@ == f.cid_a
    &&& v.cid_b@ == f.cid_b
    &&& v.observed_at == f.observed_at
}

/// The accounts followed, the latest first.
pub fn get_follows(store: &Store) -> (res: Vec<FollowView>)
    requires
        store.wf(),
    ensures
        res@.map_values(|v: FollowView| v@) == shown_follows(store@),
{
    let rows = store.get_follows();
    let ghost shown = shown_follows(store@);
    let mut out: Vec<FollowView> = Vec::new();
    let mut i: usize = 0;
    while i < rows.len()
        invariant
            i <= rows@.len(),
            rows@.map_values(|r: FollowRow| r@) == shown,
            out@.len() == i,
            forall|j: int| 0 <= j < i ==> (#[trigger] out@[j])@ == shown[j],
        decreases rows@.len() - i,
    {
        let r = &rows[i];
        assert(rows@.map_values(|r: FollowRow| r@)[i as int] == r@);
        out.push(
            FollowView {
                pubkey: r.pubkey.clone(),
                since: r.since,
                display_name: clone_opt_text(&r.display_name),
            },
        );
        i += 1;
    }
    assert(out@.map_values(|v: FollowView| v@) =~= shown);
    out
}

/// The timeline of the unlocked account, the latest post first. Deleted posts are included.
pub fn get_timeline(account: &Option<ActiveAccount>, store: &Store) -> (res: Result<
    Vec<PostView>,
    AppError,
>)
    requires
        store.wf(),
    ensures
        match account {
            Some(a) => res matches Ok(views) && views@.map_values(|v: PostView| v@)
                == shown_timeline(store@, account_key(a@.seed)),
            None => res matches Err(e) && e == AppError::NotUnlocked,
        },
{
    let key = match account {
        Some(a) => a.pubkey_hex(),
        None => return Err(AppError::NotUnlocked),
    };
    let rows = store.get_timeline(key.as_str());
    let ghost shown = shown_timeline(store@, key@);
    let n: usize = rows.len();
    let mut rest = rows;
    let mut out: Vec<PostView> = Vec::new();
    let mut i: usize = 0;
    while i < n
        invariant
            i <= n == shown.len(),
            rest@.len() == n - i,
            forall|j: int| i <= j < n ==> #[trigger] shown[j] == rest@[j - i]@,
            out@.len() == i,
            forall|j: int| 0 <= j < i ==> (#[trigger] out@[j])@ == shown[j],
        decreases n - i,
    {
        let row = rest.remove(0);
        assert(shown[i as int] == row@);
        out.push(PostView::from(row));
        i += 1;
    }
    assert(out@.map_values(|v: PostView| v@) =~= shown);
    Ok(out)
}

/// The posts of the unlocked account, the highest position first. Deleted posts are included.
pub fn get_my_posts(account: &Option<ActiveAccount>, store: &Store) -> (res: Result<
    Vec<PostRow>,
    AppError,
>)
    requires
        store.wf(),
    ensures
        match account {
            Some(a) => res matches Ok(rows) && rows@.map_values(|r: PostRow| r@) == shown_posts_by(
                store@,
                account_key(a@.seed),
            ),
            None => res matches Err(e) && e == AppError::NotUnlocked,
        },
{
    match account {
        Some(a) => {
            let key = a.pubkey_hex();
            Ok(store.get_posts_by_author(key.as_str()))
        },
        None => Err(AppError::NotUnlocked),
    }
}

/// All forks, in the order in which they were seen.
pub fn get_forks(store: &Store) -> (res: Vec<ForkView>)
    requires
        store.wf(),
    ensures
        res@.len() == forks_of(store@, None).len(),
        forall|i: int|
            0 <= i < res@.len() ==> views_fork(#[trigger] res@[i], forks_of(store@, None)[i]),
{
    let rows = store.list_forks(None);
    let ghost forks = forks_of(store@, None);
    let mut out: Vec<ForkView> = Vec::new();
    let mut i: usize = 0;
    while i < rows.len()
        invariant
            i <= rows@.len() == forks.len(),
            forall|j: int| 0 <= j < forks.len() ==> shows_fork(#[trigger] rows@[j], forks[j]),
            out@.len() == i,
            forall|j: int| 0 <= j < i ==> views_fork(#[trigger] out@[j], forks[j]),
        decreases rows@.len() - i,
    {
        let r = &rows[i];
        assert(shows_fork(rows@[i as int], forks[i as int]));
        out.push(
            ForkView {
                author: r.author.clone(),
                layer: r.layer.clone(),
                seq: r.seq,
                cid_a: r.cid_a.clone(),
                cid_b: r.cid_b.clone(),
                observed_at: r.observed_at,
            },
        );
        i += 1;
    }
    out
}

// ---------------------------------------------------------------------------
// Head records from the network
// ---------------------------------------------------------------------------

/// What comes of a head record that was announced.
pub enum HeadReceived {
    /// Nobody follows its account: nothing comes of it.
    Ignored,
    /// Its chain is fetched.
    Sync(SyncStep),
}

/// What an announced record leads to: that of an account followed starts a session with the
/// usual limits, any other nothing.
pub open spec fn received(s: StoreModel, r: RecordModel, now: i64) -> (
    StoreModel,
    Option<NextModel>,
) {
    if follows_account(s, hex_text(r.payload.name)) {
        let (after, next) = begun(
            s,
            r,
            LimitsModel { window: 500, chunk: 100, budget: 1_000 },
            now,
        );
        (after, Some(next))
    } else {
        (s, None)
    }
}

/// Takes in an announced head record, if its account is followed.
pub fn handle_head_received(store: &mut Store, record: &IpnsRecord, now_ms: i64) -> (res:
    HeadReceived)
    requires
        old(store).wf(),
    ensures
        final(store).wf(),
        if follows_account(old(store)@, hex_text(record@.payload.name)) {
            let limits = LimitsModel { window: 500, chunk: 100, budget: 1_000 };
            let (s, next) = begun(old(store)@, record@, limits, now_ms);
            final(store)@ == s && (res matches HeadReceived::Sync(step) && step_is(step, next)
                && step_wf(step))
        } else {
            final(store)@ == old(store)@ && res is Ignored
        },
        ({
            let (s, next) = received(old(store)@, record@, now_ms);
            &&& final(store)@ == s
            &&& next is None ==> res is Ignored
            &&& next matches Some(n) ==> (res matches HeadReceived::Sync(step) && step_is(step, n))
        }),
{
    let key = bytes_to_hex(record.payload.name.as_slice());
    if !store.is_followed(key.as_str()) {
        return HeadReceived::Ignored;
    }
    HeadReceived::Sync(handle_head_record(store, record, now_ms))
}

/// Whether the user is told that the timeline changed: as soon as anything came in, though
/// the chain may not be complete.
pub fn timeline_changed(outcome: &SyncOutcome) -> (res: bool)
    ensures
        res == (outcome.new_events > 0),
{
    outcome.new_events > 0
}

/// Fetches the chain of an account that is followed, from the head record that was found for
/// it; without one there is nothing to fetch from.
pub fn sync_follow_target(store: &mut Store, resolved: Option<&IpnsRecord>, now_ms: i64) -> (res:
    Option<SyncStep>)
    requires
        old(store).wf(),
    ensures
        final(store).wf(),
        match resolved {
            Some(record) => {
                let limits = LimitsModel { window: 500, chunk: 100, budget: 1_000 };
                let (s, next) = begun(old(store)@, record@, limits, now_ms);
                final(store)@ == s && (res matches Some(step) && step_is(step, next) && step_wf(
                    step,
                ))
            },
            None => final(store)@ == old(store)@ && res is None,
        },
{
    match resolved {
        Some(record) => Some(handle_head_record(store, record, now_ms)),
        None => None,
    }
}

/// What to do after an attempt to fetch the chain of an account that is followed.
#[derive(Debug, Clone, Copy, PartialEq, Eq, Structural)]
pub enum FollowSync {
    /// No record was found: the attempt is made again.
    Retry,
    /// The chain was fetched, as far as it could be had.
    Done { timeline_changed: bool },
    /// The chain is not to be trusted: no more attempts.
    Failed,
}

/// What to do after an attempt that found no record, or fetched a chain, or failed.
pub fn after_sync_attempt(result: &Result<Option<SyncOutcome>, SyncError>) -> (res: FollowSync)
    ensures
        res == match *result {
            Ok(Some(outcome)) => FollowSync::Done { timeline_changed: outcome.new_events > 0 },
            Ok(None) => FollowSync::Retry,
            Err(_) => FollowSync::Failed,
        },
{
    match result {
        Ok(Some(outcome)) => FollowSync::Done { timeline_changed: timeline_changed(outcome) },
        Ok(None) => FollowSync::Retry,
        Err(_) => FollowSync::Failed,
    }
}

/// How often the record of an account that was just followed is looked for.
pub const SYNC_ATTEMPTS: u32 = 10;

/// How many seconds lie between two attempts.
pub const SYNC_RETRY_SECS: u64 = 3;

/// How many seconds to wait before attempt number `attempt`, counted from 0; `None` when there
/// is no such attempt.
pub fn sync_attempt_delay(attempt: u32) -> (res: Option<u64>)
    ensures
        res == if attempt >= 10 {
            None::<u64>
        } else if attempt == 0 {
            Some(0u64)
        } else {
            Some(3u64)
        },
{
    if attempt >= SYNC_ATTEMPTS {
        None
    } else if attempt == 0 {
        Some(0)
    } else {
        Some(SYNC_RETRY_SECS)
    }
}

/// How often an account's head record is issued again while the node is online: every twelve
/// hours, in seconds.
pub const REPUBLISH_INTERVAL_SECS: u64 = 43_200;

/// A record is issued again four times before it would run out.
pub proof fn republished_before_expiry()
    ensures
        4 * REPUBLISH_INTERVAL_SECS * 1000 == RECORD_LIFETIME_MS,
{
}

} // verus!
