//! The local store: events, what they describe, and what the network has told.
//!
//! The store is held in memory. Its model and what each operation does to it stand in
//! [`model`].

use crate::cid::{bytes_eq, bytes_to_cid, cid_parse, cid_text, copy_bytes, Cid};
use crate::dag_cbor::cid_option;
use crate::event::{
    envelope_block, envelope_cid, envelope_from_dag_cbor, envelope_of_block, envelope_to_dag_cbor,
    event_cid, EnvelopeModel, EventEnvelope, EventKind, KindModel,
};
use crate::head::{is_head_before, record_from_bytes, record_to_bytes, IpnsRecord};
use crate::order::{
    index_values, int_values, is_permutation, is_text_before, newest_first, newest_first_sorts,
    order_newest_first,
};
use crate::projection::{
    cids_unique, event_index, has_event, is_newest_among, latest_profile,
    latest_profile_push, lower_of, new_post, post_after, post_after_push, post_step, projection,
    projection_push, run_bottom, PostRowModel,
};
use crate::store::model::{
    account_at, accounts_show_profiles, add_fork, empty_account, empty_store, event_forks,
    events_by, filter_next, filter_none, follows_account, fork_between, fork_known, fork_of,
    forks_of, head_fork, is_head_of, layer_name, none_among, on_timeline, other_than, post_of,
    posts_by, profile_step, profiles_by, run_bottom_from, same_fork, shown_follows, shown_name,
    shown_name_at, shown_post, shown_posts_by, shown_timeline, shows_profile, timeline_posts,
    with_event, with_follow, with_head, with_head_cid, with_record, with_snapshot_name,
    without_follow, AccountModel, ForkLayer, ForkModel, HeadModel, ShownFollow, ShownPost,
    StoreModel, SyncModel,
};
use crate::table::{Keyed, Table};
use crate::util::{bytes_to_hex, hex_text, hex_text_injective};
use vstd::prelude::*;
use vstd::string::*;

pub mod effects;
pub mod laws;
pub mod model;

verus! {

// ---------------------------------------------------------------------------
// Rows that are handed out
// ---------------------------------------------------------------------------

/// A post of one author.
#[derive(Debug, Clone)]
pub struct PostRow {
    pub cid: String,
    pub author: String,
    pub text: String,
    pub timestamp: i64,
    pub edited: bool,
    pub deleted: bool,
}

/// An account followed.
#[derive(Debug, Clone)]
pub struct FollowRow {
    pub pubkey: String,
    pub since: i64,
    /// The name under which the account is shown, if there is one.
    pub display_name: Option<String>,
}

/// A post on a timeline, with the name of its author.
#[derive(Debug, Clone)]
pub struct TimelineRow {
    pub cid: String,
    pub author: String,
    pub text: String,
    pub timestamp: i64,
    pub edited: bool,
    pub deleted: bool,
    pub display_name: Option<String>,
}

/// An account.
#[derive(Debug, Clone)]
pub struct AccountRow {
    pub pubkey: String,
    /// The name under which the account is shown; empty if there is none.
    pub display_name: String,
    pub bio: String,
    pub latest_head_cid: Option<String>,
    pub last_seen: i64,
}

/// How far back the chain of an account has been fetched. All but the floor can be derived
/// from the events.
#[derive(Debug, Clone, PartialEq, Eq)]
pub struct SyncStateRow {
    pub pubkey: String,
    /// Events below this position are not fetched.
    pub window_floor_seq: u64,
    /// The lowest event of the run that hangs together from the newest event down.
    pub cursor_cid: Option<String>,
    pub cursor_seq: Option<u64>,
    /// Whether the run reaches the floor.
    pub completed: bool,
}

/// Proof that an account signed two histories.
#[derive(Debug, Clone)]
pub struct ForkRow {
    pub author: String,
    /// `event` or `head`.
    pub layer: String,
    pub seq: u64,
    pub cid_a: String,
    pub cid_b: String,
    pub evidence_a: Vec<u8>,
    pub evidence_b: Vec<u8>,
    pub observed_at: i64,
}

/// The view of an optional text.
pub open spec fn opt_text(text: Option<String>) -> Option<Seq<char>> {
    match text {
        Some(t) => Some(t@),
        None => None,
    }
}

pub(crate) fn clone_opt_text(text: &Option<String>) -> (res: Option<String>)
    ensures
        opt_text(res) == opt_text(*text),
{
    match text {
        Some(t) => Some(t.clone()),
        None => None,
    }
}

impl View for PostRow {
    type V = ShownPost;

    open spec fn view(&self) -> ShownPost {
        ShownPost {
            cid: self.cid@,
            author: self.author@,
            text: self.text@,
            timestamp: self.timestamp,
            edited: self.edited,
            deleted: self.deleted,
        }
    }
}

impl View for TimelineRow {
    type V = (ShownPost, Option<Seq<char>>);

    open spec fn view(&self) -> (ShownPost, Option<Seq<char>>) {
        (
            ShownPost {
                cid: self.cid@,
                author: self.author@,
                text: self.text@,
                timestamp: self.timestamp,
                edited: self.edited,
                deleted: self.deleted,
            },
            opt_text(self.display_name),
        )
    }
}

impl View for FollowRow {
    type V = ShownFollow;

    open spec fn view(&self) -> ShownFollow {
        ShownFollow {
            pubkey: self.pubkey@,
            since: self.since,
            display_name: opt_text(self.display_name),
        }
    }
}

/// Whether a row shows the given fork.
pub open spec fn shows_fork(row: ForkRow, f: ForkModel) -> bool {
    &&& row.author@ == f.author
    &&& row.layer@ == layer_name(f.layer)
    &&& row.seq == f.seq
    &&& row.cid_a@ == f.cid_a
    &&& row.cid_b@ == f.cid_b
    &&& row.evidence_a@ == f.evidence_a
    &&& row.evidence_b@ == f.evidence_b
    &&& row.observed_at == f.observed_at
}

/// Whether a row shows the given progress, of the account `key`.
pub open spec fn shows_sync(row: SyncStateRow, key: Seq<char>, s: SyncModel) -> bool {
    &&& row.pubkey@ == key
    &&& row.window_floor_seq == s.window_floor_seq
    &&& opt_text(row.cursor_cid) == s.cursor_cid
    &&& row.cursor_seq == s.cursor_seq
    &&& row.completed == s.completed
}

/// Whether a row shows the given account, `key`.
pub open spec fn shows_account(row: AccountRow, key: Seq<char>, a: AccountModel) -> bool {
    &&& row.pubkey@ == key
    &&& row.display_name@ == match shown_name(a) {
        Some(name) => name,
        None => Seq::<char>::empty(),
    }
    &&& row.bio@ == a.bio
    &&& opt_text(row.latest_head_cid) == a.latest_head_cid
    &&& row.last_seen == a.last_seen
}

// ---------------------------------------------------------------------------
// Rows that are kept
// ---------------------------------------------------------------------------

struct EventEntry {
    envelope: EventEnvelope,
    cid: Cid,
    cid_text: String,
    author_hex: String,
    block: Vec<u8>,
}

impl EventEntry {
    spec fn wf(&self) -> bool {
        &&& self.cid@ == event_cid(self.envelope@)
        &&& self.cid_text@ == cid_text(self.cid@)
        &&& cid_parse(self.cid_text@) == Some(self.cid@)
        &&& self.author_hex@ == hex_text(self.envelope@.payload.author)
        &&& self.block@ == envelope_block(self.envelope@)
        &&& is_readable(self.envelope@)
    }
}

struct StoredPost {
    cid: Cid,
    cid_text: String,
    author: [u8; 32],
    author_hex: String,
    seq: u64,
    text: String,
    timestamp: i64,
    edited: bool,
    deleted: bool,
    latest_edit_seq: u64,
}

impl StoredPost {
    spec fn wf(&self) -> bool {
        &&& self.cid_text@ == cid_text(self.cid@)
        &&& self.author_hex@ == hex_text(self.author@)
    }

    spec fn model(&self) -> PostRowModel {
        PostRowModel {
            cid: self.cid@,
            author: self.author@,
            seq: self.seq,
            text: self.text@,
            timestamp: self.timestamp,
            edited: self.edited,
            deleted: self.deleted,
            latest_edit_seq: self.latest_edit_seq,
        }
    }
}

struct AccountEntry {
    pubkey: String,
    display_name: String,
    bio: String,
    profile_seq: Option<u64>,
    last_seen: i64,
    latest_head_cid: Option<String>,
    snapshot_display_name: String,
    snapshot_seq: Option<u64>,
}

impl Keyed for AccountEntry {
    type Model = AccountModel;

    closed spec fn row_key(&self) -> Seq<char> {
        self.pubkey@
    }

    closed spec fn row_model(&self) -> AccountModel {
        AccountModel {
            display_name: self.display_name@,
            bio: self.bio@,
            profile_seq: self.profile_seq,
            last_seen: self.last_seen,
            latest_head_cid: opt_text(self.latest_head_cid),
            snapshot_display_name: self.snapshot_display_name@,
            snapshot_seq: self.snapshot_seq,
        }
    }

    fn has_key(&self, key: &str) -> (res: bool) {
        text_eq(self.pubkey.as_str(), key)
    }
}

struct HeadEntry {
    pubkey: String,
    sequence: u64,
    validity: i64,
    record_bytes: Vec<u8>,
    updated_at: i64,
}

impl Keyed for HeadEntry {
    type Model = HeadModel;

    closed spec fn row_key(&self) -> Seq<char> {
        self.pubkey@
    }

    closed spec fn row_model(&self) -> HeadModel {
        HeadModel {
            sequence: self.sequence,
            validity: self.validity,
            record_bytes: self.record_bytes@,
            updated_at: self.updated_at,
        }
    }

    fn has_key(&self, key: &str) -> (res: bool) {
        text_eq(self.pubkey.as_str(), key)
    }
}

struct SyncEntry {
    row: SyncStateRow,
    updated_at: i64,
}

impl Keyed for SyncEntry {
    type Model = SyncModel;

    closed spec fn row_key(&self) -> Seq<char> {
        self.row.pubkey@
    }

    closed spec fn row_model(&self) -> SyncModel {
        SyncModel {
            window_floor_seq: self.row.window_floor_seq,
            cursor_cid: opt_text(self.row.cursor_cid),
            cursor_seq: self.row.cursor_seq,
            completed: self.row.completed,
            updated_at: self.updated_at,
        }
    }

    fn has_key(&self, key: &str) -> (res: bool) {
        text_eq(self.row.pubkey.as_str(), key)
    }
}

struct ForkEntry {
    author: String,
    layer: ForkLayer,
    seq: u64,
    cid_a: String,
    cid_b: String,
    evidence_a: Vec<u8>,
    evidence_b: Vec<u8>,
    observed_at: i64,
}

impl ForkEntry {
    spec fn model(&self) -> ForkModel {
        ForkModel {
            author: self.author@,
            layer: self.layer,
            seq: self.seq,
            cid_a: self.cid_a@,
            cid_b: self.cid_b@,
            evidence_a: self.evidence_a@,
            evidence_b: self.evidence_b@,
            observed_at: self.observed_at,
        }
    }
}

struct FollowEntry {
    pubkey: String,
    since: i64,
}

/// Whether two texts are equal.
pub(crate) fn text_eq(a: &str, b: &str) -> (res: bool)
    ensures
        res == (a@ == b@),
{
    let x = a.to_owned();
    let y = b.to_owned();
    x == y
}

/// Applies an event to one post.
fn step_post(row: &mut StoredPost, e: &EventEnvelope)
    requires
        old(row).wf(),
    ensures
        final(row).wf(),
        final(row).model() == post_step(old(row).model(), e@),
{
    if !bytes_eq(row.author.as_slice(), e.payload.author.as_slice()) {
        return;
    }
    match &e.payload.kind {
        EventKind::Edit { text, target } => {
            if target.same(&row.cid) && e.payload.seq > row.latest_edit_seq {
                row.text = text.clone();
                row.edited = true;
                row.latest_edit_seq = e.payload.seq;
            }
        },
        EventKind::Delete { target } => {
            if target.same(&row.cid) {
                row.deleted = true;
            }
        },
        _ => {},
    }
}

/// Applies an event to every post.
fn apply_to_posts(posts: &mut Vec<StoredPost>, e: &EventEnvelope)
    requires
        forall|i: int| 0 <= i < old(posts)@.len() ==> (#[trigger] old(posts)@[i]).wf(),
    ensures
        forall|i: int| 0 <= i < final(posts)@.len() ==> (#[trigger] final(posts)@[i]).wf(),
        post_models(final(posts)@) == post_models(old(posts)@).map_values(
            |r: PostRowModel| post_step(r, e@),
        ),
{
    let ghost start = posts@;
    let n: usize = posts.len();
    let mut i: usize = 0;
    while i < n
        invariant
            i <= n == start.len(),
            posts@.len() == n,
            forall|j: int| 0 <= j < n ==> (#[trigger] posts@[j]).wf(),
            forall|j: int|
                0 <= j < i ==> (#[trigger] posts@[j]).model() == post_step(start[j].model(), e@),
            forall|j: int| i <= j < n ==> #[trigger] posts@[j] == start[j],
        decreases n - i,
    {
        step_post(&mut posts[i], e);
        i += 1;
    }
    assert(post_models(posts@) =~= post_models(start).map_values(
        |r: PostRowModel| post_step(r, e@),
    ));
}

/// Applies to a new post the edits and deletions that came before it.
fn apply_pending_ops(row: &mut StoredPost, events: &Vec<EventEntry>)
    requires
        old(row).wf(),
    ensures
        final(row).wf(),
        final(row).model() == post_after(old(row).model(), event_models(events@)),
{
    let ghost models = event_models(events@);
    let ghost start = row.model();
    let mut i: usize = 0;
    assert(post_after(start, models.take(0)) == start);
    while i < events.len()
        invariant
            i <= events@.len(),
            models == event_models(events@),
            row.wf(),
            row.model() == post_after(start, models.take(i as int)),
        decreases events@.len() - i,
    {
        step_post(row, &events[i].envelope);
        proof {
            assert(models.take(i + 1) =~= models.take(i as int).push(models[i as int]));
            post_after_push(start, models.take(i as int), models[i as int]);
        }
        i += 1;
    }
    assert(models.take(i as int) =~= models);
}

/// The post that an event makes.
fn post_of_event(entry: &EventEntry, text: &String) -> (res: StoredPost)
    requires
        entry.wf(),
        entry.envelope@.payload.kind == (KindModel::Post { text: text@ }),
    ensures
        res.wf(),
        res.model() == new_post(entry.envelope@),
{
    StoredPost {
        cid: entry.cid.clone(),
        cid_text: entry.cid_text.clone(),
        author: entry.envelope.payload.author,
        author_hex: entry.author_hex.clone(),
        seq: entry.envelope.payload.seq,
        text: text.clone(),
        timestamp: entry.envelope.payload.timestamp,
        edited: false,
        deleted: false,
        latest_edit_seq: entry.envelope.payload.seq,
    }
}

fn new_account(key: &str) -> (res: AccountEntry)
    ensures
        res.row_key() == key@,
        res.row_model() == empty_account(),
{
    AccountEntry {
        pubkey: key.to_owned(),
        display_name: String::new(),
        bio: String::new(),
        profile_seq: None,
        last_seen: 0,
        latest_head_cid: None,
        snapshot_display_name: String::new(),
        snapshot_seq: None,
    }
}

/// A copy of what is known of an account.
fn account_copy(accounts: &Table<AccountEntry>, key: &str) -> (res: AccountEntry)
    requires
        accounts.wf(),
    ensures
        res.row_key() == key@,
        res.row_model() == account_at(accounts@, key@),
{
    match accounts.get(key) {
        Some(a) => AccountEntry {
            pubkey: a.pubkey.clone(),
            display_name: a.display_name.clone(),
            bio: a.bio.clone(),
            profile_seq: a.profile_seq,
            last_seen: a.last_seen,
            latest_head_cid: clone_opt_text(&a.latest_head_cid),
            snapshot_display_name: a.snapshot_display_name.clone(),
            snapshot_seq: a.snapshot_seq,
        },
        None => new_account(key),
    }
}

/// Takes a profile event into the accounts.
fn apply_profile(accounts: &mut Table<AccountEntry>, entry: &EventEntry)
    requires
        old(accounts).wf(),
        entry.wf(),
    ensures
        final(accounts).wf(),
        final(accounts)@ == profile_step(old(accounts)@, entry.envelope@),
{
    match &entry.envelope.payload.kind {
        EventKind::Profile { bio, display_name, .. } => {
            let key = entry.author_hex.as_str();
            let mut a = account_copy(accounts, key);
            let newer = match a.profile_seq {
                Some(last) => entry.envelope.payload.seq > last,
                None => true,
            };
            if newer {
                a.display_name = display_name.clone();
                a.bio = bio.clone();
                a.profile_seq = Some(entry.envelope.payload.seq);
                a.last_seen = entry.envelope.payload.timestamp;
                accounts.put(key, a);
            }
        },
        _ => {},
    }
}

/// Records a fork that was not seen before.
fn record_fork(forks: &mut Vec<ForkEntry>, f: ForkEntry) -> (added: bool)
    requires
        forks_unique(fork_models(old(forks)@)),
    ensures
        fork_models(final(forks)@) == add_fork(fork_models(old(forks)@), f.model()),
        forks_unique(fork_models(final(forks)@)),
        added == !fork_known(fork_models(old(forks)@), f.model()),
        final(forks)@.len() == old(forks)@.len() + (if added {
            1int
        } else {
            0int
        }),
{
    let ghost models = fork_models(forks@);
    let mut i: usize = 0;
    while i < forks.len()
        invariant
            i <= forks@.len(),
            models == fork_models(forks@),
            forks_unique(models),
            forall|j: int| 0 <= j < i ==> !same_fork(#[trigger] models[j], f.model()),
        decreases forks@.len() - i,
    {
        let g = &forks[i];
        if g.author == f.author && g.layer == f.layer && g.seq == f.seq && g.cid_a == f.cid_a
            && g.cid_b == f.cid_b {
            assert(same_fork(models[i as int], f.model()));
            return false;
        }
        assert(!same_fork(models[i as int], f.model()));
        i += 1;
    }
    forks.push(f);
    proof {
        let after = fork_models(forks@);
        assert(after =~= models.push(f.model()));
        assert forall|a: int, b: int| 0 <= a < b < after.len() implies !same_fork(
            #[trigger] after[a],
            #[trigger] after[b],
        ) by {
            assert(after[a] == models[a]);
            if b < models.len() {
                assert(after[b] == models[b]);
            }
        }
    }
    true
}

/// The fork between two signed things.
fn make_fork(
    author: &str,
    layer: ForkLayer,
    seq: u64,
    cid_1: &str,
    evidence_1: &Vec<u8>,
    cid_2: &str,
    evidence_2: &Vec<u8>,
    now_ms: i64,
) -> (res: ForkEntry)
    ensures
        res.model() == fork_between(
            author@,
            layer,
            seq,
            cid_1@,
            evidence_1@,
            cid_2@,
            evidence_2@,
            now_ms,
        ),
{
    if is_text_before(cid_1, cid_2) {
        ForkEntry {
            author: author.to_owned(),
            layer,
            seq,
            cid_a: cid_1.to_owned(),
            cid_b: cid_2.to_owned(),
            evidence_a: evidence_1.clone(),
            evidence_b: evidence_2.clone(),
            observed_at: now_ms,
        }
    } else {
        ForkEntry {
            author: author.to_owned(),
            layer,
            seq,
            cid_a: cid_2.to_owned(),
            cid_b: cid_1.to_owned(),
            evidence_a: evidence_2.clone(),
            evidence_b: evidence_1.clone(),
            observed_at: now_ms,
        }
    }
}

/// Records the forks between a new event and the events before it.
fn record_event_forks(
    forks: &mut Vec<ForkEntry>,
    events: &Vec<EventEntry>,
    entry: &EventEntry,
    now_ms: i64,
) -> (count: usize)
    requires
        entry.wf(),
        forall|i: int| 0 <= i < events@.len() ==> (#[trigger] events@[i]).wf(),
        forks_unique(fork_models(old(forks)@)),
    ensures
        fork_models(final(forks)@) == event_forks(
            fork_models(old(forks)@),
            event_models(events@),
            entry.envelope@,
            now_ms,
        ),
        forks_unique(fork_models(final(forks)@)),
        count == final(forks)@.len() - old(forks)@.len(),
{
    let ghost models = event_models(events@);
    let ghost start = fork_models(forks@);
    let mut count: usize = 0;
    let mut i: usize = 0;
    assert(event_forks(start, models.take(0), entry.envelope@, now_ms) == start);
    while i < events.len()
        invariant
            i <= events@.len(),
            count <= i,
            entry.wf(),
            forall|i: int| 0 <= i < events@.len() ==> (#[trigger] events@[i]).wf(),
            models == event_models(events@),
            forks_unique(fork_models(forks@)),
            fork_models(forks@) == event_forks(
                start,
                models.take(i as int),
                entry.envelope@,
                now_ms,
            ),
            count == forks@.len() - start.len(),
        decreases events@.len() - i,
    {
        let x = &events[i];
        proof {
            assert(x.wf());
            assert(models[i as int] == x.envelope@);
            assert(models.take(i + 1).drop_last() =~= models.take(i as int));
            assert(models.take(i + 1).last() == x.envelope@);
        }
        if bytes_eq(x.envelope.payload.author.as_slice(), entry.envelope.payload.author.as_slice())
            && x.envelope.payload.seq == entry.envelope.payload.seq && !x.cid.same(&entry.cid) {
            let f = make_fork(
                entry.author_hex.as_str(),
                ForkLayer::Event,
                entry.envelope.payload.seq,
                x.cid_text.as_str(),
                &x.block,
                entry.cid_text.as_str(),
                &entry.block,
                now_ms,
            );
            if record_fork(forks, f) {
                count += 1;
            }
        }
        i += 1;
    }
    assert(models.take(i as int) =~= models);
    count
}

/// What became of an event.
#[derive(Debug, Clone, Copy, PartialEq, Eq)]
pub struct InsertOutcome {
    /// Whether the event was new.
    pub inserted: bool,
    /// How many forks were recorded.
    pub forks_recorded: usize,
}

/// The local store.
pub struct Store {
    events: Vec<EventEntry>,
    posts: Vec<StoredPost>,
    accounts: Table<AccountEntry>,
    heads: Table<HeadEntry>,
    sync: Table<SyncEntry>,
    forks: Vec<ForkEntry>,
    follows: Vec<FollowEntry>,
}

spec fn event_models(entries: Seq<EventEntry>) -> Seq<EnvelopeModel> {
    entries.map_values(|e: EventEntry| e.envelope@)
}

spec fn post_models(posts: Seq<StoredPost>) -> Seq<PostRowModel> {
    posts.map_values(|p: StoredPost| p.model())
}

spec fn fork_models(forks: Seq<ForkEntry>) -> Seq<ForkModel> {
    forks.map_values(|f: ForkEntry| f.model())
}

spec fn follow_models(follows: Seq<FollowEntry>) -> Seq<(Seq<char>, i64)> {
    follows.map_values(|f: FollowEntry| (f.pubkey@, f.since))
}

impl View for Store {
    type V = StoreModel;

    closed spec fn view(&self) -> StoreModel {
        StoreModel {
            events: event_models(self.events@),
            posts: post_models(self.posts@),
            accounts: self.accounts@,
            heads: self.heads@,
            sync: self.sync@,
            forks: fork_models(self.forks@),
            follows: follow_models(self.follows@),
        }
    }
}

/// Whether no fork is recorded twice.
pub open spec fn forks_unique(forks: Seq<ForkModel>) -> bool {
    forall|i: int, j: int|
        0 <= i < j < forks.len() ==> !same_fork(#[trigger] forks[i], #[trigger] forks[j])
}

/// Whether no account is followed twice.
pub open spec fn follows_unique(follows: Seq<(Seq<char>, i64)>) -> bool {
    forall|i: int, j: int|
        0 <= i < j < follows.len() ==> (#[trigger] follows[i]).0 != (#[trigger] follows[j]).0
}

/// Whether the block of an event reads back as the event.
pub open spec fn is_readable(e: EnvelopeModel) -> bool {
    envelope_of_block(envelope_block(e)) matches Ok(m) && m == e
}

/// What holds of every store: no event, fork or follow twice, every event can be read back
/// from its block, the posts are those that the events describe, and the accounts show the
/// newest profiles.
pub open spec fn store_consistent(s: StoreModel) -> bool {
    &&& cids_unique(s.events)
    &&& forall|i: int| 0 <= i < s.events.len() ==> is_readable(#[trigger] s.events[i])
    &&& s.posts == projection(s.events)
    &&& accounts_show_profiles(s.accounts, s.events)
    &&& forks_unique(s.forks)
    &&& follows_unique(s.follows)
}

impl Store {
    /// The store's invariant.
    pub closed spec fn wf(&self) -> bool {
        &&& forall|i: int| 0 <= i < self.events@.len() ==> (#[trigger] self.events@[i]).wf()
        &&& forall|i: int| 0 <= i < self.posts@.len() ==> (#[trigger] self.posts@[i]).wf()
        &&& self.accounts.wf()
        &&& self.heads.wf()
        &&& self.sync.wf()
        &&& store_consistent(self@)
    }

    /// The model of every store is consistent.
    pub proof fn consistent(&self)
        requires
            self.wf(),
        ensures
            store_consistent(self@),
    {
    }

    /// The forks of a store can be counted.
    pub proof fn fork_count_fits(&self)
        ensures
            self@.forks.len() <= usize::MAX,
    {
        assert(self.forks.len() == self.forks@.len());
    }

    /// A store without anything.
    pub fn open_in_memory() -> (res: Store)
        ensures
            res.wf(),
            res@ == empty_store(),
    {
        let res = Store {
            events: Vec::new(),
            posts: Vec::new(),
            accounts: Table::new(),
            heads: Table::new(),
            sync: Table::new(),
            forks: Vec::new(),
            follows: Vec::new(),
        };
        proof {
            assert(res@ =~= empty_store());
            assert(projection(res@.events) =~= Seq::<PostRowModel>::empty());
        }
        res
    }

    // -----------------------------------------------------------------------
    // Events
    // -----------------------------------------------------------------------

    fn find_event(&self, cid: &Cid) -> (res: Option<usize>)
        requires
            self.wf(),
        ensures
            match res {
                Some(i) => i < self.events@.len() && event_cid(self@.events[i as int]) == cid@
                    && has_event(self@.events, cid@) && event_index(self@.events, cid@) == i,
                None => !has_event(self@.events, cid@),
            },
    {
        let mut i: usize = 0;
        while i < self.events.len()
            invariant
                i <= self.events@.len(),
                self.wf(),
                forall|j: int| 0 <= j < i ==> event_cid(#[trigger] self@.events[j]) != cid@,
            decreases self.events@.len() - i,
        {
            if self.events[i].cid.same(cid) {
                proof {
                    assert(self.events@[i as int].wf());
                    assert(event_cid(self@.events[i as int]) == cid@);
                    let k = event_index(self@.events, cid@);
                    assert(0 <= k < self@.events.len() && event_cid(self@.events[k]) == cid@);
                }
                return Some(i);
            }
            proof {
                assert(self.events@[i as int].wf());
                assert(self@.events[i as int] == self.events@[i as int].envelope@);
            }
            i += 1;
        }
        None
    }

    /// Keeps an event, brings posts and accounts up to date, and records the forks with the
    /// events that it contradicts. An event that is already there changes nothing.
    pub fn insert_event(&mut self, envelope: &EventEnvelope, now_ms: i64) -> (res: InsertOutcome)
        requires
            old(self).wf(),
        ensures
            final(self).wf(),
            final(self)@ == with_event(old(self)@, envelope@, now_ms),
            res.inserted == !has_event(old(self)@.events, event_cid(envelope@)),
            res.forks_recorded == final(self)@.forks.len() - old(self)@.forks.len(),
    {
        let block = envelope_to_dag_cbor(envelope);
        let cid = bytes_to_cid(block.as_slice());
        if self.find_event(&cid).is_some() {
            return InsertOutcome { inserted: false, forks_recorded: 0 };
        }
        let ghost before = self@;
        let ghost models = before.events;
        let cid_text = cid.to_string();
        let author_hex = bytes_to_hex(envelope.payload.author.as_slice());
        let entry = EventEntry { envelope: envelope.clone(), cid, cid_text, author_hex, block };
        assert(entry.wf());
        let forks_recorded = record_event_forks(&mut self.forks, &self.events, &entry, now_ms);
        apply_to_posts(&mut self.posts, envelope);
        if let EventKind::Post { text } = &envelope.payload.kind {
            let mut row = post_of_event(&entry, text);
            apply_pending_ops(&mut row, &self.events);
            let ghost changed = post_models(self.posts@);
            self.posts.push(row);
            assert(post_models(self.posts@) =~= changed.push(row.model()));
        }
        apply_profile(&mut self.accounts, &entry);
        let ghost old_events = self.events@;
        self.events.push(entry);
        proof {
            let e = envelope@;
            assert(event_models(self.events@) =~= models.push(e));
            projection_push(models, e);
            assert(self@.posts == projection(self@.events));
            assert forall|i: int| 0 <= i < self.events@.len() implies (
            #[trigger] self.events@[i]).wf() by {
                if i < old_events.len() {
                    assert(old_events[i].wf());
                }
            }
            assert(cids_unique(self@.events)) by {
                let all = self@.events;
                assert forall|i: int, j: int| 0 <= i < j < all.len() implies event_cid(
                    #[trigger] all[i],
                ) != event_cid(#[trigger] all[j]) by {
                    assert(all[i] == models[i]);
                    if j < models.len() {
                        assert(all[j] == models[j]);
                    } else {
                        assert(!has_event(models, event_cid(e)));
                    }
                }
            }
            accounts_after_event(before, e);
            assert(self@ =~= with_event(before, e, now_ms));
        }
        InsertOutcome { inserted: true, forks_recorded }
    }

    /// The block of an event, by the text of its CID.
    pub fn get_raw_block(&self, cid_str: &str) -> (res: Option<Vec<u8>>)
        requires
            self.wf(),
        ensures
            match res {
                Some(block) => exists|i: int|
                    0 <= i < self@.events.len() && cid_text(event_cid(#[trigger] self@.events[i]))
                        == cid_str@ && block@ == envelope_block(self@.events[i]),
                None => forall|i: int|
                    0 <= i < self@.events.len() ==> cid_text(event_cid(#[trigger] self@.events[i]))
                        != cid_str@,
            },
    {
        let mut i: usize = 0;
        while i < self.events.len()
            invariant
                i <= self.events@.len(),
                self.wf(),
                forall|j: int|
                    0 <= j < i ==> cid_text(event_cid(#[trigger] self@.events[j])) != cid_str@,
            decreases self.events@.len() - i,
        {
            proof {
                assert(self.events@[i as int].wf());
                assert(self@.events[i as int] == self.events@[i as int].envelope@);
            }
            if text_eq(self.events[i].cid_text.as_str(), cid_str) {
                return Some(self.events[i].block.clone());
            }
            i += 1;
        }
        None
    }

    /// The block of an event, by its CID.
    pub fn block_of(&self, cid: &Cid) -> (res: Option<Vec<u8>>)
        requires
            self.wf(),
        ensures
            match res {
                Some(block) => has_event(self@.events, cid@) && block@ == envelope_block(
                    self@.events[event_index(self@.events, cid@)],
                ),
                None => !has_event(self@.events, cid@),
            },
    {
        match self.find_event(cid) {
            Some(i) => {
                assert(self.events@[i as int].wf());
                Some(self.events[i].block.clone())
            },
            None => None,
        }
    }

    /// Whether the event with the given CID is there.
    pub fn has_block(&self, cid: &Cid) -> (res: bool)
        requires
            self.wf(),
        ensures
            res == has_event(self@.events, cid@),
    {
        self.find_event(cid).is_some()
    }

    fn newest(&self, key: &str, profiles_only: bool) -> (res: Option<usize>)
        requires
            self.wf(),
        ensures
            match res {
                Some(i) => i < self.events@.len() && is_newest_among(
                    self@.events,
                    if profiles_only {
                        profiles_by(key@)
                    } else {
                        events_by(key@)
                    },
                    i as int,
                ),
                None => none_among(
                    self@.events,
                    if profiles_only {
                        profiles_by(key@)
                    } else {
                        events_by(key@)
                    },
                ),
            },
    {
        let ghost among = if profiles_only {
            profiles_by(key@)
        } else {
            events_by(key@)
        };
        let ghost events = self@.events;
        let mut best: Option<usize> = None;
        let mut i: usize = 0;
        while i < self.events.len()
            invariant
                i <= self.events@.len(),
                self.wf(),
                events == self@.events,
                among == if profiles_only {
                    profiles_by(key@)
                } else {
                    events_by(key@)
                },
                match best {
                    Some(b) => {
                        &&& b < i
                        &&& among(events[b as int])
                        &&& forall|j: int|
                            0 <= j < i && among(#[trigger] events[j]) ==> events[j].payload.seq
                                <= events[b as int].payload.seq
                        &&& forall|j: int|
                            0 <= j < b && among(#[trigger] events[j]) ==> events[j].payload.seq
                                < events[b as int].payload.seq
                    },
                    None => forall|j: int| 0 <= j < i ==> !among(#[trigger] events[j]),
                },
            decreases self.events@.len() - i,
        {
            let e = &self.events[i];
            proof {
                assert(self.events@[i as int].wf());
                assert(events[i as int] == e.envelope@);
            }
            let is_profile = matches!(e.envelope.payload.kind, EventKind::Profile { .. });
            if text_eq(e.author_hex.as_str(), key) && (!profiles_only || is_profile) {
                assert(among(events[i as int]));
                let newer = match best {
                    Some(b) => {
                        assert(events[b as int] == self.events@[b as int].envelope@);
                        e.envelope.payload.seq > self.events[b].envelope.payload.seq
                    },
                    None => true,
                };
                if newer {
                    best = Some(i);
                }
            } else {
                assert(!among(events[i as int]));
            }
            i += 1;
        }
        best
    }

    /// The newest event of an account: its position and the text of its CID.
    pub fn get_head(&self, pubkey_hex: &str) -> (res: Option<(u64, Option<String>)>)
        requires
            self.wf(),
        ensures
            match res {
                Some((seq, cid)) => exists|i: int| #[trigger]
                    is_head_of(self@, pubkey_hex@, i) && seq == self@.events[i].payload.seq
                        && opt_text(cid) == Some(cid_text(event_cid(self@.events[i]))),
                None => none_among(self@.events, events_by(pubkey_hex@)),
            },
    {
        match self.newest(pubkey_hex, false) {
            Some(i) => {
                proof {
                    assert(self.events@[i as int].wf());
                    assert(self@.events[i as int] == self.events@[i as int].envelope@);
                    assert(is_head_of(self@, pubkey_hex@, i as int));
                }
                Some((self.events[i].envelope.payload.seq, Some(self.events[i].cid_text.clone())))
            },
            None => None,
        }
    }

    /// The newest event of an account: its position and its CID.
    pub fn head_of(&self, pubkey_hex: &str) -> (res: Option<(u64, Cid)>)
        requires
            self.wf(),
        ensures
            match res {
                Some((seq, cid)) => exists|i: int| #[trigger]
                    is_head_of(self@, pubkey_hex@, i) && seq == self@.events[i].payload.seq && cid@
                        == event_cid(self@.events[i]),
                None => none_among(self@.events, events_by(pubkey_hex@)),
            },
    {
        match self.newest(pubkey_hex, false) {
            Some(i) => {
                proof {
                    assert(self.events@[i as int].wf());
                    assert(self@.events[i as int] == self.events@[i as int].envelope@);
                    assert(is_head_of(self@, pubkey_hex@, i as int));
                }
                Some((self.events[i].envelope.payload.seq, self.events[i].cid.clone()))
            },
            None => None,
        }
    }

    /// The CID, as text, of the newest profile event of an account.
    pub fn get_latest_profile_cid(&self, pubkey_hex: &str) -> (res: Option<String>)
        requires
            self.wf(),
        ensures
            match res {
                Some(cid) => exists|i: int| #[trigger]
                    is_newest_among(self@.events, profiles_by(pubkey_hex@), i) && cid@ == cid_text(
                        event_cid(self@.events[i]),
                    ),
                None => none_among(self@.events, profiles_by(pubkey_hex@)),
            },
    {
        match self.latest_profile_of(pubkey_hex) {
            Some(c) => Some(c.to_string()),
            None => None,
        }
    }

    /// The CID of the newest profile event of an account.
    pub fn latest_profile_of(&self, pubkey_hex: &str) -> (res: Option<Cid>)
        requires
            self.wf(),
        ensures
            match res {
                Some(cid) => exists|i: int| #[trigger]
                    is_newest_among(self@.events, profiles_by(pubkey_hex@), i) && cid@ == event_cid(
                        self@.events[i],
                    ),
                None => none_among(self@.events, profiles_by(pubkey_hex@)),
            },
    {
        match self.newest(pubkey_hex, true) {
            Some(i) => {
                proof {
                    assert(self.events@[i as int].wf());
                    assert(self@.events[i as int] == self.events@[i as int].envelope@);
                }
                Some(self.events[i].cid.clone())
            },
            None => None,
        }
    }

    fn bottom_of(&self, head: usize) -> (res: usize)
        requires
            self.wf(),
            head < self.events@.len(),
        ensures
            res < self.events@.len(),
            res == run_bottom_from(self@, head as int),
    {
        let ghost events = self@.events;
        let mut best: usize = head;
        let mut cur: usize = head;
        let mut steps: usize = self.events.len();
        loop
            invariant
                self.wf(),
                events == self@.events,
                best < self.events@.len(),
                cur < self.events@.len(),
                events.len() == self.events@.len(),
                lower_of(events, best as int, run_bottom(events, cur as int, steps as nat))
                    == run_bottom(events, head as int, events.len()),
            decreases steps,
        {
            proof {
                assert(events[cur as int] == self.events@[cur as int].envelope@);
                assert(events[best as int] == self.events@[best as int].envelope@);
            }
            let lower = if self.events[cur].envelope.payload.seq
                < self.events[best].envelope.payload.seq {
                cur
            } else {
                best
            };
            let next = match &self.events[cur].envelope.payload.prev {
                Some(p) => if steps > 0 {
                    self.find_event(p)
                } else {
                    None
                },
                None => None,
            };
            match next {
                Some(n) => {
                    best = lower;
                    cur = n;
                    steps -= 1;
                },
                None => {
                    return lower;
                },
            }
        }
    }

    /// The lowest event that hangs together with the newest event of an account by `prev`: its
    /// CID, the CID before it, and its position.
    pub fn run_bottom_of(&self, pubkey_hex: &str) -> (res: Option<(Cid, Option<Cid>, u64)>)
        requires
            self.wf(),
        ensures
            match res {
                Some((cid, prev, seq)) => exists|i: int| #[trigger]
                    is_head_of(self@, pubkey_hex@, i) && {
                        let e = self@.events[run_bottom_from(self@, i)];
                        cid@ == event_cid(e) && cid_option(prev) == e.payload.prev && seq
                            == e.payload.seq
                    },
                None => none_among(self@.events, events_by(pubkey_hex@)),
            },
    {
        match self.newest(pubkey_hex, false) {
            Some(i) => {
                let b = self.bottom_of(i);
                proof {
                    assert(self.events@[b as int].wf());
                    assert(self@.events[b as int] == self.events@[b as int].envelope@);
                    assert(is_head_of(self@, pubkey_hex@, i as int));
                }
                let e = &self.events[b];
                let prev = match &e.envelope.payload.prev {
                    Some(p) => Some(p.clone()),
                    None => None,
                };
                Some((e.cid.clone(), prev, e.envelope.payload.seq))
            },
            None => None,
        }
    }

    /// As [`Store::run_bottom_of`], with the CIDs as text.
    pub fn get_chain_run_bottom(&self, pubkey_hex: &str) -> (res: Option<
        (String, Option<String>, u64),
    >)
        requires
            self.wf(),
        ensures
            match res {
                Some((cid, prev, seq)) => exists|i: int| #[trigger]
                    is_head_of(self@, pubkey_hex@, i) && {
                        let e = self@.events[run_bottom_from(self@, i)];
                        cid@ == cid_text(event_cid(e)) && opt_text(prev) == (match e.payload.prev {
                            Some(p) => Some(cid_text(p)),
                            None => None,
                        }) && seq == e.payload.seq
                    },
                None => none_among(self@.events, events_by(pubkey_hex@)),
            },
    {
        match self.run_bottom_of(pubkey_hex) {
            Some((cid, prev, seq)) => {
                let prev_text = match &prev {
                    Some(p) => Some(p.to_string()),
                    None => None,
                };
                Some((cid.to_string(), prev_text, seq))
            },
            None => None,
        }
    }

    // -----------------------------------------------------------------------
    // Posts
    // -----------------------------------------------------------------------

    /// The posts of an account, the highest position first. Deleted posts are included.
    pub fn get_posts_by_author(&self, author_hex: &str) -> (res: Vec<PostRow>)
        requires
            self.wf(),
        ensures
            res@.map_values(|r: PostRow| r@) == shown_posts_by(self@, author_hex@),
    {
        let ghost pred = post_of(author_hex@);
        let ghost all = self@.posts;
        let ghost rows = posts_by(self@, author_hex@);
        let mut chosen: Vec<usize> = Vec::new();
        let mut keys: Vec<i128> = Vec::new();
        let mut i: usize = 0;
        proof {
            filter_none(all, pred);
        }
        while i < self.posts.len()
            invariant
                i <= self.posts@.len(),
                self.wf(),
                all == self@.posts,
                pred == post_of(author_hex@),
                chosen@.len() == all.take(i as int).filter(pred).len(),
                keys@.len() == chosen@.len(),
                forall|j: int|
                    0 <= j < chosen@.len() ==> {
                        &&& #[trigger] chosen@[j] < self.posts@.len()
                        &&& all[chosen@[j] as int] == all.take(i as int).filter(pred)[j]
                        &&& keys@[j] == all[chosen@[j] as int].seq
                    },
            decreases self.posts@.len() - i,
        {
            proof {
                filter_next(all, i as int, pred);
                assert(self.posts@[i as int].wf());
                assert(all[i as int] == self.posts@[i as int].model());
            }
            if text_eq(self.posts[i].author_hex.as_str(), author_hex) {
                chosen.push(i);
                keys.push(self.posts[i].seq as i128);
            }
            i += 1;
        }
        proof {
            assert(all.take(i as int) =~= all);
            assert forall|j: int| 0 <= j < keys@.len() implies keys@[j] == rows[j].seq by {
                assert(all[chosen@[j] as int] == rows[j]);
            }
            assert(int_values(keys@) =~= rows.map_values(|p: PostRowModel| p.seq as int));
        }
        let order = order_newest_first(&keys);
        let ghost by_seq = newest_first(int_values(keys@), keys@.len());
        proof {
            newest_first_sorts(int_values(keys@), keys@.len());
            assert(order@.len() == by_seq.len());
        }
        let mut out: Vec<PostRow> = Vec::new();
        let mut k: usize = 0;
        while k < order.len()
            invariant
                k <= order@.len(),
                self.wf(),
                all == self@.posts,
                rows.len() == chosen@.len(),
                keys@.len() == chosen@.len(),
                by_seq == index_values(order@),
                is_permutation(by_seq, keys@.len()),
                forall|j: int|
                    0 <= j < chosen@.len() ==> {
                        &&& #[trigger] chosen@[j] < self.posts@.len()
                        &&& all[chosen@[j] as int] == rows[j]
                    },
                out@.len() == k,
                forall|j: int|
                    0 <= j < k ==> (#[trigger] out@[j])@ == shown_post(rows[by_seq[j]]),
            decreases order@.len() - k,
        {
            assert(by_seq[k as int] == order@[k as int]);
            let p = &self.posts[chosen[order[k]]];
            proof {
                assert(self.posts@[chosen@[order@[k as int] as int] as int].wf());
                assert(p.model() == rows[by_seq[k as int]]);
            }
            out.push(
                PostRow {
                    cid: p.cid_text.clone(),
                    author: p.author_hex.clone(),
                    text: p.text.clone(),
                    timestamp: p.timestamp,
                    edited: p.edited,
                    deleted: p.deleted,
                },
            );
            k += 1;
        }
        assert(out@.map_values(|r: PostRow| r@) =~= shown_posts_by(self@, author_hex@));
        out
    }

    /// The posts of an account and of the accounts that are followed, the latest first, with
    /// the names of their authors. Deleted posts are included.
    pub fn get_timeline(&self, self_pubkey_hex: &str) -> (res: Vec<TimelineRow>)
        requires
            self.wf(),
        ensures
            res@.map_values(|r: TimelineRow| r@) == shown_timeline(self@, self_pubkey_hex@),
    {
        let ghost pred = on_timeline(self@, self_pubkey_hex@);
        let ghost all = self@.posts;
        let ghost rows = timeline_posts(self@, self_pubkey_hex@);
        let mut chosen: Vec<usize> = Vec::new();
        let mut keys: Vec<i128> = Vec::new();
        let mut i: usize = 0;
        proof {
            filter_none(all, pred);
        }
        while i < self.posts.len()
            invariant
                i <= self.posts@.len(),
                self.wf(),
                all == self@.posts,
                pred == on_timeline(self@, self_pubkey_hex@),
                chosen@.len() == all.take(i as int).filter(pred).len(),
                keys@.len() == chosen@.len(),
                forall|j: int|
                    0 <= j < chosen@.len() ==> {
                        &&& #[trigger] chosen@[j] < self.posts@.len()
                        &&& all[chosen@[j] as int] == all.take(i as int).filter(pred)[j]
                        &&& keys@[j] == all[chosen@[j] as int].timestamp
                    },
            decreases self.posts@.len() - i,
        {
            proof {
                filter_next(all, i as int, pred);
                assert(self.posts@[i as int].wf());
                assert(all[i as int] == self.posts@[i as int].model());
            }
            let author = self.posts[i].author_hex.as_str();
            if text_eq(author, self_pubkey_hex) || self.is_followed(author) {
                chosen.push(i);
                keys.push(self.posts[i].timestamp as i128);
            }
            i += 1;
        }
        proof {
            assert(all.take(i as int) =~= all);
            assert forall|j: int| 0 <= j < keys@.len() implies keys@[j] == rows[j].timestamp by {
                assert(all[chosen@[j] as int] == rows[j]);
            }
            assert(int_values(keys@) =~= rows.map_values(|p: PostRowModel| p.timestamp as int));
        }
        let order = order_newest_first(&keys);
        let ghost by_time = newest_first(int_values(keys@), keys@.len());
        proof {
            newest_first_sorts(int_values(keys@), keys@.len());
            assert(order@.len() == by_time.len());
        }
        let mut out: Vec<TimelineRow> = Vec::new();
        let mut k: usize = 0;
        while k < order.len()
            invariant
                k <= order@.len(),
                self.wf(),
                all == self@.posts,
                rows.len() == chosen@.len(),
                keys@.len() == chosen@.len(),
                by_time == index_values(order@),
                is_permutation(by_time, keys@.len()),
                forall|j: int|
                    0 <= j < chosen@.len() ==> {
                        &&& #[trigger] chosen@[j] < self.posts@.len()
                        &&& all[chosen@[j] as int] == rows[j]
                    },
                out@.len() == k,
                forall|j: int|
                    0 <= j < k ==> (#[trigger] out@[j])@ == (
                        shown_post(rows[by_time[j]]),
                        shown_name_at(self@.accounts, hex_text(rows[by_time[j]].author)),
                    ),
            decreases order@.len() - k,
        {
            assert(by_time[k as int] == order@[k as int]);
            let p = &self.posts[chosen[order[k]]];
            proof {
                assert(self.posts@[chosen@[order@[k as int] as int] as int].wf());
                assert(p.model() == rows[by_time[k as int]]);
            }
            out.push(
                TimelineRow {
                    cid: p.cid_text.clone(),
                    author: p.author_hex.clone(),
                    text: p.text.clone(),
                    timestamp: p.timestamp,
                    edited: p.edited,
                    deleted: p.deleted,
                    display_name: self.name_of(p.author_hex.as_str()),
                },
            );
            k += 1;
        }
        assert(out@.map_values(|r: TimelineRow| r@) =~= shown_timeline(self@, self_pubkey_hex@));
        out
    }

    // -----------------------------------------------------------------------
    // Accounts
    // -----------------------------------------------------------------------

    /// The name under which an account is shown.
    fn name_of(&self, key: &str) -> (res: Option<String>)
        requires
            self.wf(),
        ensures
            opt_text(res) == shown_name_at(self@.accounts, key@),
    {
        let a = account_copy(&self.accounts, key);
        if !a.display_name.as_str().is_empty() {
            Some(a.display_name)
        } else if !a.snapshot_display_name.as_str().is_empty() {
            Some(a.snapshot_display_name)
        } else {
            None
        }
    }

    /// An account. Its name is the one in its newest profile event, or else the one in its
    /// newest head record, or else empty.
    pub fn get_account(&self, pubkey_hex: &str) -> (res: Option<AccountRow>)
        requires
            self.wf(),
        ensures
            match res {
                Some(row) => self@.accounts.dom().contains(pubkey_hex@) && shows_account(
                    row,
                    pubkey_hex@,
                    self@.accounts[pubkey_hex@],
                ),
                None => !self@.accounts.dom().contains(pubkey_hex@),
            },
    {
        match self.accounts.get(pubkey_hex) {
            Some(a) => {
                let display_name = match self.name_of(pubkey_hex) {
                    Some(name) => name,
                    None => String::new(),
                };
                Some(
                    AccountRow {
                        pubkey: a.pubkey.clone(),
                        display_name,
                        bio: a.bio.clone(),
                        latest_head_cid: clone_opt_text(&a.latest_head_cid),
                        last_seen: a.last_seen,
                    },
                )
            },
            None => None,
        }
    }

    /// Notes the newest event of an account.
    pub fn update_head_cid(&mut self, pubkey_hex: &str, head_cid: &str)
        requires
            old(self).wf(),
        ensures
            final(self).wf(),
            final(self)@ == with_head_cid(old(self)@, pubkey_hex@, head_cid@),
    {
        let ghost before = self@;
        let mut a = account_copy(&self.accounts, pubkey_hex);
        a.latest_head_cid = Some(head_cid.to_owned());
        self.accounts.put(pubkey_hex, a);
        proof {
            assert(self@ =~= with_head_cid(before, pubkey_hex@, head_cid@));
            accounts_after_note(before, self@.accounts, pubkey_hex@);
        }
    }

    /// Notes the name that came with a head record, unless a record with the same or a higher
    /// sequence gave one before. The name in a profile event stays apart from it.
    pub fn fill_display_name_snapshot(
        &mut self,
        pubkey_hex: &str,
        sequence: u64,
        display_name: &str,
    )
        requires
            old(self).wf(),
        ensures
            final(self).wf(),
            final(self)@ == with_snapshot_name(old(self)@, pubkey_hex@, sequence, display_name@),
    {
        let ghost before = self@;
        let mut a = account_copy(&self.accounts, pubkey_hex);
        let newer = match a.snapshot_seq {
            Some(last) => sequence > last,
            None => true,
        };
        if newer {
            a.snapshot_display_name = display_name.to_owned();
            a.snapshot_seq = Some(sequence);
            self.accounts.put(pubkey_hex, a);
            proof {
                assert(self@ =~= with_snapshot_name(
                    before,
                    pubkey_hex@,
                    sequence,
                    display_name@,
                ));
                accounts_after_note(before, self@.accounts, pubkey_hex@);
            }
        }
    }

    // -----------------------------------------------------------------------
    // Head records
    // -----------------------------------------------------------------------

    /// Keeps a head record if it is newer than the one that is kept, by sequence and then by
    /// validity.
    pub fn upsert_head_record(
        &mut self,
        pubkey_hex: &str,
        sequence: u64,
        validity: i64,
        record_bytes: &[u8],
        now_ms: i64,
    )
        requires
            old(self).wf(),
        ensures
            final(self).wf(),
            final(self)@ == with_head(
                old(self)@,
                pubkey_hex@,
                (HeadModel { sequence, validity, record_bytes: record_bytes@, updated_at: now_ms }),
            ),
    {
        let ghost before = self@;
        let newer = match self.heads.get(pubkey_hex) {
            Some(h) => is_head_before(h.sequence, h.validity, sequence, validity),
            None => true,
        };
        if newer {
            let entry = HeadEntry {
                pubkey: pubkey_hex.to_owned(),
                sequence,
                validity,
                record_bytes: copy_bytes(record_bytes),
                updated_at: now_ms,
            };
            self.heads.put(pubkey_hex, entry);
            proof {
                assert(self@ =~= with_head(
                    before,
                    pubkey_hex@,
                    HeadModel {
                        sequence,
                        validity,
                        record_bytes: record_bytes@,
                        updated_at: now_ms,
                    },
                ));
            }
        }
    }

    /// Takes in a head record: records a fork if it contradicts the record that is kept, and
    /// keeps the newer of the two. The count is that of the forks recorded.
    pub fn observe_head_record(&mut self, record: &IpnsRecord, now_ms: i64) -> (forks_recorded:
        usize)
        requires
            old(self).wf(),
        ensures
            final(self).wf(),
            final(self)@ == with_record(old(self)@, record@, now_ms),
            forks_recorded == final(self)@.forks.len() - old(self)@.forks.len(),
    {
        let ghost before = self@;
        let key = bytes_to_hex(record.payload.name.as_slice());
        let bytes = record_to_bytes(record);
        let fork = match self.heads.get(key.as_str()) {
            Some(h) => match record_from_bytes(h.record_bytes.as_slice()) {
                Ok(known) => if known.payload.sequence == record.payload.sequence
                    && !known.payload.value.same(&record.payload.value) {
                    let known_text = known.payload.value.to_string();
                    let text = record.payload.value.to_string();
                    Some(
                        make_fork(
                            key.as_str(),
                            ForkLayer::Head,
                            record.payload.sequence,
                            known_text.as_str(),
                            &h.record_bytes,
                            text.as_str(),
                            &bytes,
                            now_ms,
                        ),
                    )
                } else {
                    None
                },
                Err(_) => None,
            },
            None => None,
        };
        let mut count: usize = 0;
        if let Some(f) = fork {
            assert(head_fork(before, record@, now_ms) == Some(f.model()));
            if record_fork(&mut self.forks, f) {
                count = 1;
            }
        } else {
            assert(head_fork(before, record@, now_ms) is None);
        }
        let ghost middle = self@;
        assert(middle =~= match head_fork(before, record@, now_ms) {
            Some(f) => StoreModel { forks: add_fork(before.forks, f), ..before },
            None => before,
        });
        self.upsert_head_record(
            key.as_str(),
            record.payload.sequence,
            record.payload.validity,
            bytes.as_slice(),
            now_ms,
        );
        count
    }

    /// The head record of an account that is kept: its sequence and its bytes.
    pub fn get_head_record(&self, pubkey_hex: &str) -> (res: Option<(u64, Vec<u8>)>)
        requires
            self.wf(),
        ensures
            match res {
                Some((sequence, bytes)) => self@.heads.dom().contains(pubkey_hex@) && sequence
                    == self@.heads[pubkey_hex@].sequence && bytes@
                    == self@.heads[pubkey_hex@].record_bytes,
                None => !self@.heads.dom().contains(pubkey_hex@),
            },
    {
        match self.heads.get(pubkey_hex) {
            Some(h) => Some((h.sequence, h.record_bytes.clone())),
            None => None,
        }
    }

    // -----------------------------------------------------------------------
    // Progress of fetching
    // -----------------------------------------------------------------------

    /// How far back the chain of an account has been fetched; `None` if it was never tried.
    pub fn get_sync_state(&self, pubkey_hex: &str) -> (res: Option<SyncStateRow>)
        requires
            self.wf(),
        ensures
            match res {
                Some(row) => self@.sync.dom().contains(pubkey_hex@) && shows_sync(
                    row,
                    pubkey_hex@,
                    self@.sync[pubkey_hex@],
                ),
                None => !self@.sync.dom().contains(pubkey_hex@),
            },
    {
        match self.sync.get(pubkey_hex) {
            Some(e) => Some(
                SyncStateRow {
                    pubkey: e.row.pubkey.clone(),
                    window_floor_seq: e.row.window_floor_seq,
                    cursor_cid: clone_opt_text(&e.row.cursor_cid),
                    cursor_seq: e.row.cursor_seq,
                    completed: e.row.completed,
                },
            ),
            None => None,
        }
    }

    /// Notes how far back the chain of an account has been fetched, in place of what was noted
    /// before.
    pub fn upsert_sync_state(&mut self, row: &SyncStateRow, now_ms: i64)
        requires
            old(self).wf(),
        ensures
            final(self).wf(),
            final(self)@ == (StoreModel {
                sync: old(self)@.sync.insert(
                    row.pubkey@,
                    SyncModel {
                        window_floor_seq: row.window_floor_seq,
                        cursor_cid: opt_text(row.cursor_cid),
                        cursor_seq: row.cursor_seq,
                        completed: row.completed,
                        updated_at: now_ms,
                    },
                ),
                ..old(self)@
            }),
    {
        let entry = SyncEntry {
            row: SyncStateRow {
                pubkey: row.pubkey.clone(),
                window_floor_seq: row.window_floor_seq,
                cursor_cid: clone_opt_text(&row.cursor_cid),
                cursor_seq: row.cursor_seq,
                completed: row.completed,
            },
            updated_at: now_ms,
        };
        self.sync.put(row.pubkey.as_str(), entry);
    }

    // -----------------------------------------------------------------------
    // Follows
    // -----------------------------------------------------------------------

    fn find_follow(&self, key: &str) -> (res: Option<usize>)
        ensures
            match res {
                Some(i) => i < self.follows@.len() && self@.follows[i as int].0 == key@
                    && follows_account(self@, key@),
                None => !follows_account(self@, key@),
            },
    {
        let mut i: usize = 0;
        while i < self.follows.len()
            invariant
                i <= self.follows@.len(),
                forall|j: int| 0 <= j < i ==> (#[trigger] self@.follows[j]).0 != key@,
            decreases self.follows@.len() - i,
        {
            assert(self@.follows[i as int].0 == self.follows@[i as int].pubkey@);
            if text_eq(self.follows[i].pubkey.as_str(), key) {
                return Some(i);
            }
            i += 1;
        }
        None
    }

    /// Follows an account. One that is already followed keeps its time.
    pub fn add_follow(&mut self, pubkey_hex: &str, since: i64)
        requires
            old(self).wf(),
        ensures
            final(self).wf(),
            final(self)@ == with_follow(old(self)@, pubkey_hex@, since),
    {
        if self.find_follow(pubkey_hex).is_none() {
            let ghost before = self@;
            self.follows.push(FollowEntry { pubkey: pubkey_hex.to_owned(), since });
            proof {
                assert(self@.follows =~= before.follows.push((pubkey_hex@, since)));
                assert(self@ =~= with_follow(before, pubkey_hex@, since));
                let after = self@.follows;
                assert forall|i: int, j: int| 0 <= i < j < after.len() implies (
                #[trigger] after[i]).0 != (#[trigger] after[j]).0 by {
                    assert(after[i] == before.follows[i]);
                    if j < before.follows.len() {
                        assert(after[j] == before.follows[j]);
                    }
                }
            }
        }
    }

    /// Stops following an account.
    pub fn remove_follow(&mut self, pubkey_hex: &str)
        requires
            old(self).wf(),
        ensures
            final(self).wf(),
            final(self)@ == without_follow(old(self)@, pubkey_hex@),
    {
        let ghost before = self@;
        let ghost pred = other_than(pubkey_hex@);
        match self.find_follow(pubkey_hex) {
            Some(i) => {
                self.follows.remove(i);
                proof {
                    filter_removes(before.follows, pubkey_hex@, i as int);
                    assert(self@.follows =~= before.follows.remove(i as int));
                    assert(self@ =~= without_follow(before, pubkey_hex@));
                    let after = self@.follows;
                    assert forall|a: int, b: int| 0 <= a < b < after.len() implies (
                    #[trigger] after[a]).0 != (#[trigger] after[b]).0 by {
                        let x = if a < i {
                            a
                        } else {
                            a + 1
                        };
                        let y = if b < i {
                            b
                        } else {
                            b + 1
                        };
                        assert(after[a] == before.follows[x] && after[b] == before.follows[y]);
                    }
                }
            },
            None => {
                proof {
                    filter_keeps_all(before.follows, pred);
                    assert(self@ =~= without_follow(before, pubkey_hex@));
                }
            },
        }
    }

    /// Whether an account is followed.
    pub fn is_followed(&self, pubkey_hex: &str) -> (res: bool)
        ensures
            res == follows_account(self@, pubkey_hex@),
    {
        self.find_follow(pubkey_hex).is_some()
    }

    /// The accounts followed, the latest first, with the names under which they are shown.
    pub fn get_follows(&self) -> (res: Vec<FollowRow>)
        requires
            self.wf(),
        ensures
            res@.map_values(|r: FollowRow| r@) == shown_follows(self@),
    {
        let ghost all = self@.follows;
        let mut keys: Vec<i128> = Vec::new();
        let mut i: usize = 0;
        while i < self.follows.len()
            invariant
                i <= self.follows@.len(),
                all == self@.follows,
                keys@.len() == i,
                forall|j: int| 0 <= j < i ==> #[trigger] keys@[j] == all[j].1,
            decreases self.follows@.len() - i,
        {
            keys.push(self.follows[i].since as i128);
            i += 1;
        }
        assert(int_values(keys@) =~= all.map_values(|f: (Seq<char>, i64)| f.1 as int));
        let order = order_newest_first(&keys);
        let ghost by_time = newest_first(int_values(keys@), keys@.len());
        proof {
            newest_first_sorts(int_values(keys@), keys@.len());
            assert(order@.len() == by_time.len());
        }
        let mut out: Vec<FollowRow> = Vec::new();
        let mut k: usize = 0;
        while k < order.len()
            invariant
                k <= order@.len(),
                self.wf(),
                all == self@.follows,
                keys@.len() == self.follows@.len(),
                by_time == index_values(order@),
                is_permutation(by_time, keys@.len()),
                out@.len() == k,
                forall|j: int|
                    0 <= j < k ==> (#[trigger] out@[j])@ == (ShownFollow {
                        pubkey: all[by_time[j]].0,
                        since: all[by_time[j]].1,
                        display_name: shown_name_at(self@.accounts, all[by_time[j]].0),
                    }),
            decreases order@.len() - k,
        {
            assert(by_time[k as int] == order@[k as int]);
            let f = &self.follows[order[k]];
            assert(all[by_time[k as int]] == (f.pubkey@, f.since));
            out.push(
                FollowRow {
                    pubkey: f.pubkey.clone(),
                    since: f.since,
                    display_name: self.name_of(f.pubkey.as_str()),
                },
            );
            k += 1;
        }
        assert(out@.map_values(|r: FollowRow| r@) =~= shown_follows(self@));
        out
    }

    // -----------------------------------------------------------------------
    // Forks
    // -----------------------------------------------------------------------

    /// The forks of one account, or all of them, in the order in which they were seen.
    pub fn list_forks(&self, author_hex: Option<&str>) -> (res: Vec<ForkRow>)
        requires
            self.wf(),
        ensures
            ({
                let forks = forks_of(
                    self@,
                    match author_hex {
                        Some(a) => Some(a@),
                        None => None,
                    },
                );
                res@.len() == forks.len() && forall|i: int|
                    0 <= i < forks.len() ==> shows_fork(#[trigger] res@[i], forks[i])
            }),
    {
        let ghost key = match author_hex {
            Some(a) => Some(a@),
            None => None,
        };
        let ghost pred = fork_of(key);
        let ghost all = self@.forks;
        let mut out: Vec<ForkRow> = Vec::new();
        let mut i: usize = 0;
        proof {
            filter_none(all, pred);
        }
        while i < self.forks.len()
            invariant
                i <= self.forks@.len(),
                all == self@.forks,
                key == match author_hex {
                    Some(a) => Some(a@),
                    None => None,
                },
                pred == fork_of(key),
                out@.len() == all.take(i as int).filter(pred).len(),
                forall|j: int|
                    0 <= j < out@.len() ==> shows_fork(
                        #[trigger] out@[j],
                        all.take(i as int).filter(pred)[j],
                    ),
            decreases self.forks@.len() - i,
        {
            let f = &self.forks[i];
            proof {
                filter_next(all, i as int, pred);
                assert(all[i as int] == f.model());
            }
            let wanted = match author_hex {
                Some(a) => text_eq(f.author.as_str(), a),
                None => true,
            };
            if wanted {
                out.push(fork_row(f));
            }
            i += 1;
        }
        assert(all.take(i as int) =~= all);
        out
    }

    /// Takes back a fork that was recorded before; a fork that is already there is left as it
    /// is. Whether it was new is returned.
    pub fn restore_fork(&mut self, layer: ForkLayer, row: &ForkRow) -> (added: bool)
        requires
            old(self).wf(),
        ensures
            final(self).wf(),
            ({
                let f = ForkModel {
                    author: row.author@,
                    layer,
                    seq: row.seq,
                    cid_a: row.cid_a@,
                    cid_b: row.cid_b@,
                    evidence_a: row.evidence_a@,
                    evidence_b: row.evidence_b@,
                    observed_at: row.observed_at,
                };
                &&& final(self)@ == (StoreModel {
                    forks: add_fork(old(self)@.forks, f),
                    ..old(self)@
                })
                &&& added == !fork_known(old(self)@.forks, f)
            }),
    {
        let f = ForkEntry {
            author: row.author.clone(),
            layer,
            seq: row.seq,
            cid_a: row.cid_a.clone(),
            cid_b: row.cid_b.clone(),
            evidence_a: row.evidence_a.clone(),
            evidence_b: row.evidence_b.clone(),
            observed_at: row.observed_at,
        };
        record_fork(&mut self.forks, f)
    }

    // -----------------------------------------------------------------------
    // Saving and restoring
    // -----------------------------------------------------------------------

    /// How many events there are.
    pub fn event_count(&self) -> (res: usize)
        ensures
            res == self@.events.len(),
    {
        self.events.len()
    }

    /// The block of the event that came as number `i`.
    pub fn block_at(&self, i: usize) -> (res: Vec<u8>)
        requires
            self.wf(),
            i < self@.events.len(),
        ensures
            res@ == envelope_block(self@.events[i as int]),
    {
        proof {
            assert(self.events@[i as int].wf());
        }
        self.events[i].block.clone()
    }

    /// What is noted of an account apart from its profile.
    pub fn get_account_notes(&self, pubkey_hex: &str) -> (res: Option<AccountNotes>)
        requires
            self.wf(),
        ensures
            match res {
                Some(n) => self@.accounts.dom().contains(pubkey_hex@) && {
                    let a = self@.accounts[pubkey_hex@];
                    opt_text(n.latest_head_cid) == a.latest_head_cid && n.snapshot_display_name@
                        == a.snapshot_display_name && n.snapshot_seq == a.snapshot_seq
                },
                None => !self@.accounts.dom().contains(pubkey_hex@),
            },
    {
        match self.accounts.get(pubkey_hex) {
            Some(a) => Some(
                AccountNotes {
                    latest_head_cid: clone_opt_text(&a.latest_head_cid),
                    snapshot_display_name: a.snapshot_display_name.clone(),
                    snapshot_seq: a.snapshot_seq,
                },
            ),
            None => None,
        }
    }

    /// Takes in the blocks of events that were saved before, in the order of their arrival,
    /// up to the first that holds no event. Posts and profiles come out as if the events had
    /// just arrived.
    pub fn restore_events(&mut self, blocks: &Vec<Vec<u8>>, now_ms: i64) -> (res: Result<
        (),
        StoreError,
    >)
        requires
            old(self).wf(),
        ensures
            final(self).wf(),
            final(self)@ == with_blocks(
                old(self)@,
                block_views(blocks@).take(readable_blocks(block_views(blocks@))),
                now_ms,
            ),
            match res {
                Ok(()) => readable_blocks(block_views(blocks@)) == blocks@.len(),
                Err(StoreError::Serialization(text)) => {
                    let n = readable_blocks(block_views(blocks@));
                    n < blocks@.len() && (envelope_of_block(blocks@[n]@) matches Err(m) && m
                        == text@)
                },
            },
    {
        let ghost views = block_views(blocks@);
        let ghost start = self@;
        let mut i: usize = 0;
        assert(with_blocks(start, views.take(0), now_ms) == start);
        proof {
            readable_blocks_nonnegative(views);
        }
        while i < blocks.len()
            invariant
                i <= blocks@.len(),
                start == old(self)@,
                views == block_views(blocks@),
                self.wf(),
                self@ == with_blocks(start, views.take(i as int), now_ms),
                i <= readable_blocks(views),
                readable_blocks(views) <= views.len(),
            decreases blocks@.len() - i,
        {
            proof {
                readable_blocks_next(views, i as int);
                assert(views[i as int] == blocks@[i as int]@);
            }
            match envelope_from_dag_cbor(blocks[i].as_slice()) {
                Ok(e) => {
                    self.insert_event(&e, now_ms);
                    proof {
                        assert(views.take(i + 1).drop_last() =~= views.take(i as int));
                    }
                },
                Err(text) => {
                    return Err(StoreError::Serialization(text));
                },
            }
            i += 1;
        }
        Ok(())
    }
}

/// Why saved rows could not be taken back.
#[derive(Debug, PartialEq, Eq)]
pub enum StoreError {
    Serialization(String),
}

impl StoreError {
    /// The message of the error.
    pub open spec fn message(&self) -> Seq<char> {
        match *self {
            StoreError::Serialization(text) => "serialization error: "@ + text@,
        }
    }

    /// The message of the error.
    pub fn to_string(&self) -> (res: String)
        ensures
            res@ == self.message(),
    {
        match self {
            StoreError::Serialization(text) => {
                let s = "serialization error: ".to_owned();
                s.concat(text.as_str())
            },
        }
    }
}

/// What is noted of an account apart from its profile.
#[derive(Debug, Clone)]
pub struct AccountNotes {
    pub latest_head_cid: Option<String>,
    pub snapshot_display_name: String,
    pub snapshot_seq: Option<u64>,
}

/// The views of a list of blocks.
pub open spec fn block_views(blocks: Seq<Vec<u8>>) -> Seq<Seq<u8>> {
    blocks.map_values(|b: Vec<u8>| b@)
}

/// How many blocks at the front of a list hold events.
pub open spec fn readable_blocks(blocks: Seq<Seq<u8>>) -> int
    decreases blocks.len(),
{
    if blocks.len() == 0 || envelope_of_block(blocks[0]) is Err {
        0
    } else {
        1 + readable_blocks(blocks.skip(1))
    }
}

/// The store after the events in a list of blocks.
pub open spec fn with_blocks(s: StoreModel, blocks: Seq<Seq<u8>>, now: i64) -> StoreModel
    decreases blocks.len(),
{
    if blocks.len() == 0 {
        s
    } else {
        match envelope_of_block(blocks.last()) {
            Ok(e) => with_event(with_blocks(s, blocks.drop_last(), now), e, now),
            Err(_) => with_blocks(s, blocks.drop_last(), now),
        }
    }
}

proof fn readable_blocks_next(blocks: Seq<Seq<u8>>, i: int)
    requires
        0 <= i <= readable_blocks(blocks),
    ensures
        readable_blocks(blocks) <= blocks.len(),
        i < blocks.len() ==> (i < readable_blocks(blocks) <==> envelope_of_block(blocks[i]) is Ok),
    decreases blocks.len(),
{
    if blocks.len() > 0 && envelope_of_block(blocks[0]) is Ok {
        if i > 0 {
            readable_blocks_next(blocks.skip(1), i - 1);
            if i < blocks.len() {
                assert(blocks.skip(1)[i - 1] == blocks[i]);
            }
        } else {
            readable_blocks_nonnegative(blocks.skip(1));
        }
    }
}

proof fn readable_blocks_nonnegative(blocks: Seq<Seq<u8>>)
    ensures
        0 <= readable_blocks(blocks) <= blocks.len(),
    decreases blocks.len(),
{
    if blocks.len() > 0 && envelope_of_block(blocks[0]) is Ok {
        readable_blocks_nonnegative(blocks.skip(1));
    }
}

// ---------------------------------------------------------------------------
// Rows from before targets were kept
// ---------------------------------------------------------------------------

/// A saved event, as far as its target matters.
#[derive(Debug, Clone)]
pub struct SavedEventRow {
    pub raw_cbor: Vec<u8>,
    /// The name of the event's kind.
    pub kind_tag: String,
    /// The CID, as text, of the post that the event is about.
    pub target_cid: Option<String>,
}

/// The view of a saved event.
#[verifier::ext_equal]
pub struct SavedRowModel {
    pub raw_cbor: Seq<u8>,
    pub kind_tag: Seq<char>,
    pub target_cid: Option<Seq<char>>,
}

impl View for SavedEventRow {
    type V = SavedRowModel;

    open spec fn view(&self) -> SavedRowModel {
        SavedRowModel {
            raw_cbor: self.raw_cbor@,
            kind_tag: self.kind_tag@,
            target_cid: opt_text(self.target_cid),
        }
    }
}

/// The views of saved events.
pub open spec fn saved_views(rows: Seq<SavedEventRow>) -> Seq<SavedRowModel> {
    rows.map_values(|r: SavedEventRow| r@)
}

/// A target to be filled in.
#[derive(Debug, Clone)]
pub struct TargetRepair {
    pub cid: String,
    pub target_cid: String,
}

impl View for TargetRepair {
    type V = (Seq<char>, Seq<char>);

    open spec fn view(&self) -> (Seq<char>, Seq<char>) {
        (self.cid@, self.target_cid@)
    }
}

/// The views of repairs.
pub open spec fn repair_views(repairs: Seq<TargetRepair>) -> Seq<(Seq<char>, Seq<char>)> {
    repairs.map_values(|r: TargetRepair| r@)
}

/// The post that an event is about.
pub open spec fn target_of(kind: KindModel) -> Option<Seq<u8>> {
    match kind {
        KindModel::Edit { target, .. } => Some(target),
        KindModel::Delete { target } => Some(target),
        KindModel::Reply { target, .. } => Some(target),
        _ => None,
    }
}

/// Whether a row lacks the target that its kind has.
pub open spec fn lacks_target(row: SavedRowModel) -> bool {
    row.target_cid is None && (row.kind_tag == "Edit"@ || row.kind_tag == "Delete"@
        || row.kind_tag == "Reply"@)
}

/// Whether a row lacks its target and holds no event that could name it.
pub open spec fn is_broken(row: SavedRowModel) -> bool {
    lacks_target(row) && envelope_of_block(row.raw_cbor) is Err
}

/// The repair that a row needs, if it needs one: the CID of the event in it, and the target
/// that the event names, as texts.
pub open spec fn repair_of(row: SavedRowModel) -> Option<(Seq<char>, Seq<char>)> {
    if lacks_target(row) {
        match envelope_of_block(row.raw_cbor) {
            Ok(e) => match target_of(e.payload.kind) {
                Some(t) => Some((cid_text(event_cid(e)), cid_text(t))),
                None => None,
            },
            Err(_) => None,
        }
    } else {
        None
    }
}

/// Whether a row needs no repair: it has its target, or the event in it names none.
pub open spec fn needs_no_repair(row: SavedRowModel) -> bool {
    !is_broken(row) && repair_of(row) is None
}

/// The post that an event is about.
pub fn event_target(kind: &EventKind) -> (res: Option<Cid>)
    ensures
        cid_option(res) == target_of(kind@),
{
    match kind {
        EventKind::Edit { target, .. } => Some(target.clone()),
        EventKind::Delete { target } => Some(target.clone()),
        EventKind::Reply { target, .. } => Some(target.clone()),
        _ => None,
    }
}

/// The target that a saved row lacks, read from the event in it.
pub fn backfill_target_cid(row: &SavedEventRow) -> (res: Result<Option<TargetRepair>, StoreError>)
    ensures
        match res {
            Ok(Some(r)) => repair_of(row@) == Some(r@),
            Ok(None) => needs_no_repair(row@),
            Err(StoreError::Serialization(text)) => is_broken(row@) && (envelope_of_block(
                row@.raw_cbor,
            ) matches Err(m) && m == text@),
        },
{
    let tag = row.kind_tag.as_str();
    if row.target_cid.is_some() || !(text_eq(tag, "Edit") || text_eq(tag, "Delete") || text_eq(
        tag,
        "Reply",
    )) {
        return Ok(None);
    }
    match envelope_from_dag_cbor(row.raw_cbor.as_slice()) {
        Ok(e) => match event_target(&e.payload.kind) {
            Some(t) => {
                let cid = envelope_cid(&e);
                Ok(Some(TargetRepair { cid: cid.to_string(), target_cid: t.to_string() }))
            },
            None => Ok(None),
        },
        Err(text) => Err(StoreError::Serialization(text)),
    }
}

/// How many rows come before the first that is broken.
pub open spec fn sound_rows(rows: Seq<SavedRowModel>) -> int
    decreases rows.len(),
{
    if rows.len() == 0 || is_broken(rows[0]) {
        0
    } else {
        1 + sound_rows(rows.skip(1))
    }
}

/// The repairs that a list of rows needs, in order.
pub open spec fn repairs_needed(rows: Seq<SavedRowModel>) -> Seq<(Seq<char>, Seq<char>)>
    decreases rows.len(),
{
    if rows.len() == 0 {
        Seq::empty()
    } else {
        let before = repairs_needed(rows.drop_last());
        match repair_of(rows.last()) {
            Some(r) => before.push(r),
            None => before,
        }
    }
}

pub(crate) proof fn sound_rows_at(rows: Seq<SavedRowModel>, i: int)
    requires
        0 <= i <= rows.len(),
        forall|j: int| 0 <= j < i ==> !is_broken(#[trigger] rows[j]),
        i < rows.len() ==> is_broken(rows[i]),
    ensures
        sound_rows(rows) == i,
    decreases rows.len(),
{
    if i > 0 {
        let rest = rows.skip(1);
        assert(!is_broken(rows[0]));
        assert forall|j: int| 0 <= j < i - 1 implies !is_broken(#[trigger] rest[j]) by {
            assert(rest[j] == rows[j + 1]);
        }
        if i < rows.len() {
            assert(rest[i - 1] == rows[i]);
        }
        sound_rows_at(rest, i - 1);
    }
}

/// Goes through the saved rows and lists the targets to be filled in, up to the first row that
/// is broken; the error says what is wrong with that one.
pub fn backfill_rows(rows: &Vec<SavedEventRow>) -> (res: (Vec<TargetRepair>, Result<(), StoreError>))
    ensures
        ({
            let views = saved_views(rows@);
            let n = sound_rows(views);
            &&& repair_views(res.0@) == repairs_needed(views.take(n))
            &&& match res.1 {
                Ok(()) => n == views.len(),
                Err(StoreError::Serialization(text)) => 0 <= n < views.len() && (envelope_of_block(
                    views[n].raw_cbor,
                ) matches Err(m) && m == text@),
            }
        }),
{
    let ghost views = saved_views(rows@);
    let mut repairs: Vec<TargetRepair> = Vec::new();
    assert(repair_views(repairs@) =~= repairs_needed(views.take(0)));
    let mut i: usize = 0;
    while i < rows.len()
        invariant
            i <= rows@.len(),
            views == saved_views(rows@),
            forall|j: int| 0 <= j < i ==> !is_broken(#[trigger] views[j]),
            repair_views(repairs@) == repairs_needed(views.take(i as int)),
        decreases rows@.len() - i,
    {
        proof {
            assert(views[i as int] == rows@[i as int]@);
            assert(views.take(i + 1).drop_last() =~= views.take(i as int));
            assert(views.take(i + 1).last() == views[i as int]);
        }
        match backfill_target_cid(&rows[i]) {
            Ok(Some(r)) => {
                let ghost before = repair_views(repairs@);
                let ghost model = r@;
                repairs.push(r);
                assert(repair_views(repairs@) =~= before.push(model));
            },
            Ok(None) => {},
            Err(e) => {
                proof {
                    sound_rows_at(views, i as int);
                }
                return (repairs, Err(e));
            },
        }
        i += 1;
    }
    proof {
        sound_rows_at(views, i as int);
        assert(views.take(i as int) =~= views);
    }
    (repairs, Ok(()))
}

/// How a fork is shown.
fn fork_row(f: &ForkEntry) -> (res: ForkRow)
    ensures
        shows_fork(res, f.model()),
{
    let layer = match f.layer {
        ForkLayer::Event => "event".to_owned(),
        ForkLayer::Head => "head".to_owned(),
    };
    ForkRow {
        author: f.author.clone(),
        layer,
        seq: f.seq,
        cid_a: f.cid_a.clone(),
        cid_b: f.cid_b.clone(),
        evidence_a: f.evidence_a.clone(),
        evidence_b: f.evidence_b.clone(),
        observed_at: f.observed_at,
    }
}

proof fn filter_keeps_all<A>(s: Seq<A>, pred: spec_fn(A) -> bool)
    requires
        forall|i: int| 0 <= i < s.len() ==> pred(#[trigger] s[i]),
    ensures
        s.filter(pred) == s,
    decreases s.len(),
{
    reveal(Seq::filter);
    if s.len() > 0 {
        let init = s.drop_last();
        assert forall|i: int| 0 <= i < init.len() implies pred(#[trigger] init[i]) by {
            assert(init[i] == s[i]);
        }
        filter_keeps_all(init, pred);
        assert(pred(s[s.len() - 1]));
        assert(init.push(s.last()) =~= s);
    }
}

/// Filtering out a key that occurs once removes that one place.
proof fn filter_removes(follows: Seq<(Seq<char>, i64)>, key: Seq<char>, i: int)
    requires
        follows_unique(follows),
        0 <= i < follows.len(),
        follows[i].0 == key,
    ensures
        follows.filter(other_than(key)) == follows.remove(i),
    decreases follows.len(),
{
    reveal(Seq::filter);
    let pred = other_than(key);
    let init = follows.drop_last();
    if i == follows.len() - 1 {
        assert forall|j: int| 0 <= j < init.len() implies pred(#[trigger] init[j]) by {
            assert(init[j] == follows[j]);
            assert(follows[j].0 != follows[i].0);
        }
        filter_keeps_all(init, pred);
        assert(follows.remove(i) =~= init);
    } else {
        assert forall|a: int, b: int| 0 <= a < b < init.len() implies (#[trigger] init[a]).0 != (
        #[trigger] init[b]).0 by {
            assert(init[a] == follows[a] && init[b] == follows[b]);
        }
        assert(init[i] == follows[i]);
        filter_removes(init, key, i);
        assert(follows[i].0 != follows[follows.len() - 1].0);
        assert(follows.remove(i) =~= init.remove(i).push(follows.last()));
    }
}

/// Noting something of an account apart from its profile keeps the accounts in step with the
/// events.
proof fn accounts_after_note(
    s: StoreModel,
    accounts: Map<Seq<char>, AccountModel>,
    key: Seq<char>,
)
    requires
        accounts_show_profiles(s.accounts, s.events),
        accounts.dom() == s.accounts.dom().insert(key),
        forall|k: Seq<char>|
            k != key && s.accounts.dom().contains(k) ==> #[trigger] accounts[k] == s.accounts[k],
        ({
            let a = account_at(s.accounts, key);
            let b = accounts[key];
            a.display_name == b.display_name && a.bio == b.bio && a.profile_seq == b.profile_seq
                && a.last_seen == b.last_seen
        }),
    ensures
        accounts_show_profiles(accounts, s.events),
{
    assert forall|author: Seq<u8>|
        #![trigger latest_profile(s.events, author)]
        {
            &&& shows_profile(
                account_at(accounts, hex_text(author)),
                latest_profile(s.events, author),
            )
            &&& latest_profile(s.events, author) is Some ==> accounts.dom().contains(
                hex_text(author),
            )
        } by {
        assert(shows_profile(
            account_at(s.accounts, hex_text(author)),
            latest_profile(s.events, author),
        ));
    }
}

/// Taking in an event keeps the accounts in step with the events.
pub(crate) proof fn accounts_after_event(s: StoreModel, e: EnvelopeModel)
    requires
        accounts_show_profiles(s.accounts, s.events),
    ensures
        accounts_show_profiles(profile_step(s.accounts, e), s.events.push(e)),
{
    let accounts = profile_step(s.accounts, e);
    let events = s.events.push(e);
    assert forall|author: Seq<u8>|
        #![trigger latest_profile(events, author)]
        {
            &&& shows_profile(account_at(accounts, hex_text(author)), latest_profile(events, author))
            &&& latest_profile(events, author) is Some ==> accounts.dom().contains(hex_text(author))
        } by {
        latest_profile_push(s.events, e, author);
        let known = latest_profile(s.events, author);
        assert(shows_profile(account_at(s.accounts, hex_text(author)), known));
        if hex_text(author) == hex_text(e.payload.author) {
            hex_text_injective(author, e.payload.author);
        }
    }
}

} // verus!
