//! The model of the store: what each operation does, over mathematical values.

use crate::cid::cid_text;
use crate::event::{envelope_block, event_cid, EnvelopeModel, KindModel};
use crate::head::{head_before, record_block, record_of_bytes, RecordModel};
use crate::order::{newest_first, text_before};
use crate::projection::{
    has_event, is_newest_among, latest_profile, projection, run_bottom, PostRowModel,
};
use crate::util::hex_text;
use vstd::prelude::*;

verus! {

/// What is known of an account.
pub struct AccountModel {
    /// The name in the newest profile event; empty if there is none.
    pub display_name: Seq<char>,
    /// The text in the newest profile event; empty if there is none.
    pub bio: Seq<char>,
    /// The position of the newest profile event.
    pub profile_seq: Option<u64>,
    /// The time of the newest profile event; 0 if there is none.
    pub last_seen: i64,
    /// The text of the CID of the newest event that was seen whole.
    pub latest_head_cid: Option<Seq<char>>,
    /// The name in the newest head record; empty if there is none.
    pub snapshot_display_name: Seq<char>,
    /// The sequence of the head record that the name came with.
    pub snapshot_seq: Option<u64>,
}

/// The newest head record of an account.
pub struct HeadModel {
    pub sequence: u64,
    pub validity: i64,
    pub record_bytes: Seq<u8>,
    pub updated_at: i64,
}

/// How far back the chain of an account has been fetched.
pub struct SyncModel {
    /// Events below this position are not fetched.
    pub window_floor_seq: u64,
    /// The lowest event of the run that hangs together from the newest event down.
    pub cursor_cid: Option<Seq<char>>,
    pub cursor_seq: Option<u64>,
    /// Whether the run reaches the floor.
    pub completed: bool,
    pub updated_at: i64,
}

/// Which of the two signed things contradict each other.
#[derive(Debug, Clone, Copy, PartialEq, Eq, Structural)]
pub enum ForkLayer {
    Event,
    Head,
}

/// Proof that an account signed two histories.
pub struct ForkModel {
    pub author: Seq<char>,
    pub layer: ForkLayer,
    pub seq: u64,
    pub cid_a: Seq<char>,
    pub cid_b: Seq<char>,
    pub evidence_a: Seq<u8>,
    pub evidence_b: Seq<u8>,
    pub observed_at: i64,
}

/// The whole store.
#[verifier::ext_equal]
pub struct StoreModel {
    /// The events in the order of their arrival; no CID occurs twice.
    pub events: Seq<EnvelopeModel>,
    /// The posts that the events describe.
    pub posts: Seq<PostRowModel>,
    pub accounts: Map<Seq<char>, AccountModel>,
    pub heads: Map<Seq<char>, HeadModel>,
    pub sync: Map<Seq<char>, SyncModel>,
    /// The forks in the order in which they were seen; no pair occurs twice.
    pub forks: Seq<ForkModel>,
    /// The accounts followed, with the time since when; none occurs twice.
    pub follows: Seq<(Seq<char>, i64)>,
}

/// A store without anything.
pub open spec fn empty_store() -> StoreModel {
    StoreModel {
        events: Seq::empty(),
        posts: Seq::empty(),
        accounts: Map::empty(),
        heads: Map::empty(),
        sync: Map::empty(),
        forks: Seq::empty(),
        follows: Seq::empty(),
    }
}

// ---------------------------------------------------------------------------
// Accounts
// ---------------------------------------------------------------------------

/// An account of which nothing is known.
pub open spec fn empty_account() -> AccountModel {
    AccountModel {
        display_name: Seq::empty(),
        bio: Seq::empty(),
        profile_seq: None,
        last_seen: 0,
        latest_head_cid: None,
        snapshot_display_name: Seq::empty(),
        snapshot_seq: None,
    }
}

/// What is known of the account `key`.
pub open spec fn account_at(accounts: Map<Seq<char>, AccountModel>, key: Seq<char>) -> AccountModel {
    if accounts.dom().contains(key) {
        accounts[key]
    } else {
        empty_account()
    }
}

/// What an event does to the accounts: a profile with a higher position than the one known
/// takes its place.
pub open spec fn profile_step(accounts: Map<Seq<char>, AccountModel>, e: EnvelopeModel) -> Map<
    Seq<char>,
    AccountModel,
> {
    let p = e.payload;
    let key = hex_text(p.author);
    let known = account_at(accounts, key);
    match p.kind {
        KindModel::Profile { bio, display_name, .. } => if known.profile_seq is None || p.seq
            > known.profile_seq->Some_0 {
            accounts.insert(
                key,
                AccountModel {
                    display_name,
                    bio,
                    profile_seq: Some(p.seq),
                    last_seen: p.timestamp,
                    ..known
                },
            )
        } else {
            accounts
        },
        _ => accounts,
    }
}

/// Whether an account shows the given profile event.
pub open spec fn shows_profile(account: AccountModel, profile: Option<EnvelopeModel>) -> bool {
    match profile {
        Some(e) => {
            &&& account.profile_seq == Some(e.payload.seq)
            &&& account.last_seen == e.payload.timestamp
            &&& e.payload.kind matches KindModel::Profile { bio, display_name, .. }
                && account.display_name == display_name && account.bio == bio
        },
        None => {
            &&& account.profile_seq is None
            &&& account.last_seen == 0
            &&& account.display_name == Seq::<char>::empty()
            &&& account.bio == Seq::<char>::empty()
        },
    }
}

/// Whether the accounts show the newest profile event of every author.
pub open spec fn accounts_show_profiles(
    accounts: Map<Seq<char>, AccountModel>,
    events: Seq<EnvelopeModel>,
) -> bool {
    forall|author: Seq<u8>|
        #![trigger latest_profile(events, author)]
        {
            &&& shows_profile(
                account_at(accounts, hex_text(author)),
                latest_profile(events, author),
            )
            &&& latest_profile(events, author) is Some ==> accounts.dom().contains(
                hex_text(author),
            )
        }
}

/// The name under which an account is shown: the one in its newest profile event, or else the
/// one in its newest head record.
pub open spec fn shown_name(account: AccountModel) -> Option<Seq<char>> {
    if account.display_name.len() > 0 {
        Some(account.display_name)
    } else if account.snapshot_display_name.len() > 0 {
        Some(account.snapshot_display_name)
    } else {
        None
    }
}

/// The name under which the account `key` is shown.
pub open spec fn shown_name_at(accounts: Map<Seq<char>, AccountModel>, key: Seq<char>) -> Option<
    Seq<char>,
> {
    shown_name(account_at(accounts, key))
}

// ---------------------------------------------------------------------------
// Forks
// ---------------------------------------------------------------------------

/// Whether two forks are the same pair of signed things.
pub open spec fn same_fork(a: ForkModel, b: ForkModel) -> bool {
    a.author == b.author && a.layer == b.layer && a.seq == b.seq && a.cid_a == b.cid_a && a.cid_b
        == b.cid_b
}

/// Whether the fork is among `forks`.
pub open spec fn fork_known(forks: Seq<ForkModel>, f: ForkModel) -> bool {
    exists|i: int| 0 <= i < forks.len() && same_fork(#[trigger] forks[i], f)
}

/// Adds a fork that was not seen before.
pub open spec fn add_fork(forks: Seq<ForkModel>, f: ForkModel) -> Seq<ForkModel> {
    if fork_known(forks, f) {
        forks
    } else {
        forks.push(f)
    }
}

/// The fork between two signed things, each with its CID as text and its bytes; the lesser
/// text comes first.
pub open spec fn fork_between(
    author: Seq<char>,
    layer: ForkLayer,
    seq: u64,
    cid_1: Seq<char>,
    evidence_1: Seq<u8>,
    cid_2: Seq<char>,
    evidence_2: Seq<u8>,
    now: i64,
) -> ForkModel {
    if text_before(cid_1, cid_2) {
        ForkModel {
            author,
            layer,
            seq,
            cid_a: cid_1,
            cid_b: cid_2,
            evidence_a: evidence_1,
            evidence_b: evidence_2,
            observed_at: now,
        }
    } else {
        ForkModel {
            author,
            layer,
            seq,
            cid_a: cid_2,
            cid_b: cid_1,
            evidence_a: evidence_2,
            evidence_b: evidence_1,
            observed_at: now,
        }
    }
}

/// Whether two events contradict each other: same author and position, different CIDs.
pub open spec fn is_event_fork(x: EnvelopeModel, e: EnvelopeModel) -> bool {
    x.payload.author == e.payload.author && x.payload.seq == e.payload.seq && event_cid(x)
        != event_cid(e)
}

/// The forks after a new event: one more for each event that it contradicts.
pub open spec fn event_forks(
    forks: Seq<ForkModel>,
    events: Seq<EnvelopeModel>,
    e: EnvelopeModel,
    now: i64,
) -> Seq<ForkModel>
    decreases events.len(),
{
    if events.len() == 0 {
        forks
    } else {
        let before = event_forks(forks, events.drop_last(), e, now);
        let x = events.last();
        if is_event_fork(x, e) {
            add_fork(
                before,
                fork_between(
                    hex_text(e.payload.author),
                    ForkLayer::Event,
                    e.payload.seq,
                    cid_text(event_cid(x)),
                    envelope_block(x),
                    cid_text(event_cid(e)),
                    envelope_block(e),
                    now,
                ),
            )
        } else {
            before
        }
    }
}

// ---------------------------------------------------------------------------
// Operations
// ---------------------------------------------------------------------------

/// The store after an event: it is kept unless it is already there, the posts and accounts
/// follow, and each event that it contradicts gives a fork.
pub open spec fn with_event(s: StoreModel, e: EnvelopeModel, now: i64) -> StoreModel {
    if has_event(s.events, event_cid(e)) {
        s
    } else {
        StoreModel {
            events: s.events.push(e),
            posts: projection(s.events.push(e)),
            accounts: profile_step(s.accounts, e),
            forks: event_forks(s.forks, s.events, e, now),
            ..s
        }
    }
}

/// The store with a newer head record: one that is not newer changes nothing.
pub open spec fn with_head(s: StoreModel, key: Seq<char>, head: HeadModel) -> StoreModel {
    if s.heads.dom().contains(key) && !head_before(
        s.heads[key].sequence,
        s.heads[key].validity,
        head.sequence,
        head.validity,
    ) {
        s
    } else {
        StoreModel { heads: s.heads.insert(key, head), ..s }
    }
}

/// The fork between the head record that is kept and another one, if they contradict each
/// other: same sequence, different heads.
pub open spec fn head_fork(s: StoreModel, r: RecordModel, now: i64) -> Option<ForkModel> {
    let key = hex_text(r.payload.name);
    if !s.heads.dom().contains(key) {
        None
    } else {
        match record_of_bytes(s.heads[key].record_bytes) {
            Ok(known) => if known.payload.sequence == r.payload.sequence && known.payload.value
                != r.payload.value {
                Some(
                    fork_between(
                        key,
                        ForkLayer::Head,
                        r.payload.sequence,
                        cid_text(known.payload.value),
                        s.heads[key].record_bytes,
                        cid_text(r.payload.value),
                        record_block(r),
                        now,
                    ),
                )
            } else {
                None
            },
            Err(_) => None,
        }
    }
}

/// The store after a head record was seen: a contradiction with the record that is kept gives
/// a fork, and the newer of the two is kept.
pub open spec fn with_record(s: StoreModel, r: RecordModel, now: i64) -> StoreModel {
    let forked = match head_fork(s, r, now) {
        Some(f) => StoreModel { forks: add_fork(s.forks, f), ..s },
        None => s,
    };
    with_head(
        forked,
        hex_text(r.payload.name),
        HeadModel {
            sequence: r.payload.sequence,
            validity: r.payload.validity,
            record_bytes: record_block(r),
            updated_at: now,
        },
    )
}

/// The store with the name of a head record: one that is not newer than the last changes
/// nothing.
pub open spec fn with_snapshot_name(
    s: StoreModel,
    key: Seq<char>,
    sequence: u64,
    name: Seq<char>,
) -> StoreModel {
    let known = account_at(s.accounts, key);
    if known.snapshot_seq matches Some(last) && sequence <= last {
        s
    } else {
        StoreModel {
            accounts: s.accounts.insert(
                key,
                AccountModel {
                    snapshot_display_name: name,
                    snapshot_seq: Some(sequence),
                    ..known
                },
            ),
            ..s
        }
    }
}

/// The store with the newest event of an account.
pub open spec fn with_head_cid(s: StoreModel, key: Seq<char>, head_cid: Seq<char>) -> StoreModel {
    StoreModel {
        accounts: s.accounts.insert(
            key,
            AccountModel { latest_head_cid: Some(head_cid), ..account_at(s.accounts, key) },
        ),
        ..s
    }
}

/// Whether the account `key` is followed.
pub open spec fn follows_account(s: StoreModel, key: Seq<char>) -> bool {
    exists|i: int| 0 <= i < s.follows.len() && (#[trigger] s.follows[i]).0 == key
}

/// The store with one more account followed; one that is already followed keeps its time.
pub open spec fn with_follow(s: StoreModel, key: Seq<char>, since: i64) -> StoreModel {
    if follows_account(s, key) {
        s
    } else {
        StoreModel { follows: s.follows.push((key, since)), ..s }
    }
}

/// Being another account than `key`.
pub open spec fn other_than(key: Seq<char>) -> spec_fn((Seq<char>, i64)) -> bool {
    |f: (Seq<char>, i64)| f.0 != key
}

/// The store with an account no longer followed.
pub open spec fn without_follow(s: StoreModel, key: Seq<char>) -> StoreModel {
    StoreModel { follows: s.follows.filter(other_than(key)), ..s }
}

// ---------------------------------------------------------------------------
// Queries
// ---------------------------------------------------------------------------

/// Whether an event is by the account `key`.
pub open spec fn by_account(e: EnvelopeModel, key: Seq<char>) -> bool {
    hex_text(e.payload.author) == key
}

/// The events of the account `key`.
pub open spec fn events_by(key: Seq<char>) -> spec_fn(EnvelopeModel) -> bool {
    |e: EnvelopeModel| by_account(e, key)
}

/// The profile events of the account `key`.
pub open spec fn profiles_by(key: Seq<char>) -> spec_fn(EnvelopeModel) -> bool {
    |e: EnvelopeModel| by_account(e, key) && e.payload.kind is Profile
}

/// Whether the account has no event at all among `events`.
pub open spec fn none_among(
    events: Seq<EnvelopeModel>,
    among: spec_fn(EnvelopeModel) -> bool,
) -> bool {
    forall|i: int| 0 <= i < events.len() ==> !among(#[trigger] events[i])
}

/// Whether event `i` is the newest of the account `key`.
pub open spec fn is_head_of(s: StoreModel, key: Seq<char>, i: int) -> bool {
    is_newest_among(s.events, events_by(key), i)
}

/// The place of the lowest event that hangs together with the newest event of an account.
pub open spec fn run_bottom_from(s: StoreModel, head: int) -> int {
    run_bottom(s.events, head, s.events.len())
}

/// A post as it is shown.
pub struct ShownPost {
    pub cid: Seq<char>,
    pub author: Seq<char>,
    pub text: Seq<char>,
    pub timestamp: i64,
    pub edited: bool,
    pub deleted: bool,
}

/// How a post is shown: its CID as text and its author in hexadecimal.
pub open spec fn shown_post(row: PostRowModel) -> ShownPost {
    ShownPost {
        cid: cid_text(row.cid),
        author: hex_text(row.author),
        text: row.text,
        timestamp: row.timestamp,
        edited: row.edited,
        deleted: row.deleted,
    }
}

/// Being a post of the account `key`.
pub open spec fn post_of(key: Seq<char>) -> spec_fn(PostRowModel) -> bool {
    |p: PostRowModel| hex_text(p.author) == key
}

/// The posts of the account `key`.
pub open spec fn posts_by(s: StoreModel, key: Seq<char>) -> Seq<PostRowModel> {
    s.posts.filter(post_of(key))
}

/// The posts of the account `key` as they are shown, the highest position first.
pub open spec fn shown_posts_by(s: StoreModel, key: Seq<char>) -> Seq<ShownPost> {
    let rows = posts_by(s, key);
    newest_first(rows.map_values(|p: PostRowModel| p.seq as int), rows.len()).map_values(
        |i: int| shown_post(rows[i]),
    )
}

/// Being a post on the timeline of the account `key`: its own, or that of an account followed.
pub open spec fn on_timeline(s: StoreModel, key: Seq<char>) -> spec_fn(PostRowModel) -> bool {
    |p: PostRowModel| hex_text(p.author) == key || follows_account(s, hex_text(p.author))
}

/// The posts on the timeline of the account `key`.
pub open spec fn timeline_posts(s: StoreModel, key: Seq<char>) -> Seq<PostRowModel> {
    s.posts.filter(on_timeline(s, key))
}

/// The timeline of the account `key`: posts with the names of their authors, the latest
/// first.
pub open spec fn shown_timeline(s: StoreModel, key: Seq<char>) -> Seq<
    (ShownPost, Option<Seq<char>>),
> {
    let rows = timeline_posts(s, key);
    newest_first(rows.map_values(|p: PostRowModel| p.timestamp as int), rows.len()).map_values(
        |i: int| (shown_post(rows[i]), shown_name_at(s.accounts, hex_text(rows[i].author))),
    )
}

/// An account followed as it is shown.
pub struct ShownFollow {
    pub pubkey: Seq<char>,
    pub since: i64,
    pub display_name: Option<Seq<char>>,
}

/// The accounts followed as they are shown, the latest first.
pub open spec fn shown_follows(s: StoreModel) -> Seq<ShownFollow> {
    newest_first(s.follows.map_values(|f: (Seq<char>, i64)| f.1 as int), s.follows.len()).map_values(
        |i: int|
            ShownFollow {
                pubkey: s.follows[i].0,
                since: s.follows[i].1,
                display_name: shown_name_at(s.accounts, s.follows[i].0),
            },
    )
}

/// The name of a layer.
pub open spec fn layer_name(layer: ForkLayer) -> Seq<char> {
    match layer {
        ForkLayer::Event => "event"@,
        ForkLayer::Head => "head"@,
    }
}

/// Being a fork of the given account, or of any.
pub open spec fn fork_of(key: Option<Seq<char>>) -> spec_fn(ForkModel) -> bool {
    |f: ForkModel|
        match key {
            Some(k) => f.author == k,
            None => true,
        }
}

/// The forks of one account, or all of them.
pub open spec fn forks_of(s: StoreModel, key: Option<Seq<char>>) -> Seq<ForkModel> {
    s.forks.filter(fork_of(key))
}

/// Filtering one more element of a sequence.
pub proof fn filter_next<A>(s: Seq<A>, k: int, pred: spec_fn(A) -> bool)
    requires
        0 <= k < s.len(),
    ensures
        s.take(k + 1).filter(pred) == {
            if pred(s[k]) {
                s.take(k).filter(pred).push(s[k])
            } else {
                s.take(k).filter(pred)
            }
        },
{
    reveal(Seq::filter);
    assert(s.take(k + 1).drop_last() =~= s.take(k));
    assert(s.take(k + 1).last() == s[k]);
}

/// Filtering nothing.
pub proof fn filter_none<A>(s: Seq<A>, pred: spec_fn(A) -> bool)
    ensures
        s.take(0).filter(pred) == Seq::<A>::empty(),
{
    reveal(Seq::filter);
    assert(s.take(0) =~= Seq::<A>::empty());
}

} // verus!
