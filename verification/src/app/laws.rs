//! What the commands do, said of what the user gives and what the store holds.

use crate::app::{
    account_after_post, account_key, hex_text_is_normal, is_space, lower, lower_text,
    new_post_event, normalized_pubkey, own_record, profile_cid_of, received, republished,
    state_from_store, store_after_follow, store_after_post, store_after_unfollow,
    trim_back, trim_back_at, trim_front, trim_front_at, views_fork, with_own_record, AccountState,
    FollowView, ForkView, PostView,
};
use crate::cid::cid_text;
use crate::dag_cbor::dag_cbor_bytes;
use crate::event::{event_cid, payload_tree, KindModel};
use crate::head::{record_block, record_payload_tree, RecordModel};
use crate::identity::{ed25519_key_valid, ed25519_public, ed25519_signature, ed25519_verifies};
use crate::projection::{is_newest_among, newest_exists};
use crate::store::effects::{
    event_is_kept_once, list_holds_every_post_of_the_author, lists_places,
    newest_event_has_highest_position, newest_profile_has_highest_position, post_events_make_posts,
    post_has_its_event, post_has_text_of_highest_edit, post_is_deleted_by_its_author,
};
use crate::store::model::{
    events_by, follows_account, is_head_of, other_than, profiles_by, shown_name_at,
    shown_posts_by, ForkLayer, ForkModel, StoreModel,
};
use crate::store::{opt_text, store_consistent, TimelineRow};
use crate::sync::effects::{
    good_record_asks_for_its_head, unknown_chain_is_wanted_to_the_window,
};
use crate::sync::model::{head_event_at, LimitsModel, NextModel};
use crate::util::{hex_text, hex_text_injective, is_hex_digit};
use vstd::prelude::*;

verus! {

// ---------------------------------------------------------------------------
// Posts
// ---------------------------------------------------------------------------

/// The event of a new post says exactly what the user wrote, at the time that was given, at the
/// account's next position, behind its newest event, signed by the account.
pub proof fn post_event_says_what_was_written(a: AccountState, text: Seq<char>, now: i64)
    ensures
        ({
            let e = new_post_event(a, text, now);
            &&& e.payload.kind == (KindModel::Post { text })
            &&& e.payload.seq == a.next_seq
            &&& e.payload.prev == a.head
            &&& e.payload.author == ed25519_public(a.seed)
            &&& e.payload.timestamp == now
            &&& e.signature == ed25519_signature(a.seed, dag_cbor_bytes(payload_tree(e.payload)))
        }),
{
}

/// After a post the account stands one position further, and its newest event is the post.
pub proof fn account_moves_on_with_its_post(a: AccountState, text: Seq<char>, now: i64)
    requires
        a.next_seq < u64::MAX,
    ensures
        ({
            let b = account_after_post(a, text, now);
            &&& b.seed == a.seed
            &&& b.next_seq == a.next_seq + 1
            &&& b.head == Some(event_cid(new_post_event(a, text, now)))
        }),
{
}

/// A post that was made is kept, and noted as the account's newest event; nothing that was
/// there is lost.
pub proof fn post_is_kept_and_noted(s: StoreModel, a: AccountState, text: Seq<char>, now: i64)
    ensures
        ({
            let e = new_post_event(a, text, now);
            let after = store_after_post(s, a, text, now);
            let key = hex_text(ed25519_public(a.seed));
            &&& exists|i: int|
                0 <= i < after.events.len() && event_cid(#[trigger] after.events[i]) == event_cid(e)
            &&& forall|i: int|
                0 <= i < s.events.len() ==> #[trigger] after.events[i] == s.events[i]
            &&& after.accounts.dom().contains(key)
            &&& after.accounts[key].latest_head_cid == Some(cid_text(event_cid(e)))
            &&& after.follows == s.follows
            &&& after.sync == s.sync
        }),
{
    let e = new_post_event(a, text, now);
    let after = store_after_post(s, a, text, now);
    event_is_kept_once(s, e, now);
    if forall|i: int| 0 <= i < s.events.len() ==> event_cid(#[trigger] s.events[i]) != event_cid(e) {
        assert(after.events[s.events.len() as int] == e);
    }
}

/// After a post the list of the account's own posts holds it with its whole text, its time and
/// its CID, neither edited nor deleted, as long as its CID is new and no event in the store is
/// already about it.
pub proof fn own_post_is_listed(
    s: StoreModel,
    a: AccountState,
    text: Seq<char>,
    r: RecordModel,
    now: i64,
)
    requires
        store_consistent(with_own_record(store_after_post(s, a, text, now), r, now)),
        forall|i: int|
            0 <= i < s.events.len() ==> {
                let cid = event_cid(new_post_event(a, text, now));
                &&& event_cid(#[trigger] s.events[i]) != cid
                &&& s.events[i].payload.kind matches KindModel::Edit { target, .. } ==> target != cid
                &&& s.events[i].payload.kind matches KindModel::Delete { target } ==> target != cid
            },
    ensures
        ({
            let after = with_own_record(store_after_post(s, a, text, now), r, now);
            let shown = shown_posts_by(after, hex_text(ed25519_public(a.seed)));
            exists|j: int|
                0 <= j < shown.len() && {
                    let p = #[trigger] shown[j];
                    &&& p.cid == cid_text(event_cid(new_post_event(a, text, now)))
                    &&& p.author == hex_text(ed25519_public(a.seed))
                    &&& p.text == text
                    &&& p.timestamp == now
                    &&& !p.edited
                    &&& !p.deleted
                }
        }),
{
    let e = new_post_event(a, text, now);
    let cid = event_cid(e);
    let key = hex_text(ed25519_public(a.seed));
    let after = with_own_record(store_after_post(s, a, text, now), r, now);
    event_is_kept_once(s, e, now);
    assert(after.events == s.events.push(e));
    let n = s.events.len() as int;
    assert(after.events[n] == e);
    assert(after.events[n].payload.kind is Post);
    post_events_make_posts(after);
    let k = choose|k: int|
        0 <= k < after.posts.len() && (#[trigger] after.posts[k]).cid == event_cid(after.events[n]);
    let p = after.posts[k];
    post_has_its_event(after, k);
    let i = choose|i: int|
        0 <= i < after.events.len() && (#[trigger] after.events[i]).payload.kind is Post
            && event_cid(after.events[i]) == p.cid && after.events[i].payload.author == p.author
            && after.events[i].payload.seq == p.seq && after.events[i].payload.timestamp
            == p.timestamp;
    if i < n {
        assert(after.events[i] == s.events[i]);
    }
    assert(after.events[i] == e);
    assert forall|j: int| 0 <= j < after.events.len() implies {
        &&& event_cid(#[trigger] after.events[j]) == cid ==> after.events[j] == e
        &&& after.events[j].payload.kind matches KindModel::Edit { target, .. } ==> target != cid
        &&& after.events[j].payload.kind matches KindModel::Delete { target } ==> target != cid
    } by {
        if j < n {
            assert(after.events[j] == s.events[j]);
        }
    }
    post_has_text_of_highest_edit(after, k);
    post_is_deleted_by_its_author(after, k);
    assert(p.text == text && !p.edited && !p.deleted);
    list_holds_every_post_of_the_author(after, key);
    let shown = shown_posts_by(after, key);
    let order = choose|order: Seq<int>|
        {
            &&& #[trigger] lists_places(order, after.posts.len())
            &&& order.len() == shown.len()
            &&& forall|a: int|
                0 <= a < order.len() ==> {
                    let p = after.posts[#[trigger] order[a]];
                    &&& hex_text(p.author) == key
                    &&& shown[a].cid == cid_text(p.cid)
                    &&& shown[a].author == hex_text(p.author)
                    &&& shown[a].text == p.text
                    &&& shown[a].timestamp == p.timestamp
                    &&& shown[a].edited == p.edited
                    &&& shown[a].deleted == p.deleted
                }
            &&& forall|k: int|
                0 <= k < after.posts.len() && hex_text((#[trigger] after.posts[k]).author) == key
                    ==> order.contains(k)
        };
    assert(hex_text(after.posts[k].author) == key);
    let j = choose|j: int| 0 <= j < order.len() && order[j] == k;
    assert(after.posts[order[j]] == p);
    assert(shown[j].cid == cid_text(cid));
}

// ---------------------------------------------------------------------------
// Head records
// ---------------------------------------------------------------------------

/// The head record that an account issues says where its chain stands, for forty-eight hours
/// from now, with the name under which the account is shown, signed by the account.
pub proof fn own_record_says_where_the_chain_stands(
    s: StoreModel,
    seed: Seq<u8>,
    sequence: u64,
    head: Seq<u8>,
    now: i64,
)
    requires
        now + 172_800_000 <= i64::MAX,
    ensures
        ({
            let r = own_record(s, seed, sequence, head, now);
            &&& r.payload.name == ed25519_public(seed)
            &&& r.payload.sequence == sequence
            &&& r.payload.value == head
            &&& r.payload.validity == now + 172_800_000
            &&& r.payload.display_name == match shown_name_at(
                s.accounts,
                hex_text(ed25519_public(seed)),
            ) {
                Some(name) => name,
                None => Seq::<char>::empty(),
            }
            &&& r.signature == ed25519_signature(
                seed,
                dag_cbor_bytes(record_payload_tree(r.payload)),
            )
        }),
{
}

/// The head record that an account issues points at its profile event with the highest
/// position, if it has one, and at none otherwise.
pub proof fn own_record_points_at_newest_profile(
    s: StoreModel,
    seed: Seq<u8>,
    sequence: u64,
    head: Seq<u8>,
    now: i64,
)
    ensures
        ({
            let r = own_record(s, seed, sequence, head, now);
            let author = ed25519_public(seed);
            match r.payload.profile_cid {
                Some(cid) => exists|i: int|
                    0 <= i < s.events.len() && {
                        let e = #[trigger] s.events[i];
                        &&& event_cid(e) == cid
                        &&& e.payload.author == author
                        &&& e.payload.kind is Profile
                        &&& forall|j: int|
                            0 <= j < s.events.len() && (#[trigger] s.events[j]).payload.author
                                == author && s.events[j].payload.kind is Profile
                                ==> s.events[j].payload.seq <= e.payload.seq
                    },
                None => forall|i: int|
                    0 <= i < s.events.len() && (#[trigger] s.events[i]).payload.author == author
                        ==> !(s.events[i].payload.kind is Profile),
            }
        }),
{
    let author = ed25519_public(seed);
    let key = account_key(seed);
    if exists|i: int| is_newest_among(s.events, profiles_by(key), i) {
        let i = choose|i: int| is_newest_among(s.events, profiles_by(key), i);
        newest_profile_has_highest_position(s, key, i);
        hex_text_injective(s.events[i].payload.author, author);
        assert forall|j: int|
            0 <= j < s.events.len() && (#[trigger] s.events[j]).payload.author == author
                && s.events[j].payload.kind is Profile implies s.events[j].payload.seq
            <= s.events[i].payload.seq by {
            assert(hex_text(s.events[j].payload.author) == key);
        }
        assert(event_cid(s.events[i]) == profile_cid_of(s, key)->0);
    } else {
        assert forall|i: int|
            0 <= i < s.events.len() && (#[trigger] s.events[i]).payload.author
                == author implies !(s.events[i].payload.kind is Profile) by {
            if s.events[i].payload.kind is Profile {
                assert(profiles_by(key)(s.events[i]));
                newest_exists(s.events, profiles_by(key), i);
            }
        }
    }
}

/// An account's own head record is kept, whole, unless one as new is kept; nothing else changes.
pub proof fn own_record_is_kept_if_newest(s: StoreModel, r: RecordModel, now: i64)
    ensures
        ({
            let key = hex_text(r.payload.name);
            let after = with_own_record(s, r, now);
            let beaten = s.heads.dom().contains(key) && (s.heads[key].sequence > r.payload.sequence
                || (s.heads[key].sequence == r.payload.sequence && s.heads[key].validity
                >= r.payload.validity));
            &&& beaten ==> after == s
            &&& !beaten ==> {
                &&& after.heads.dom().contains(key)
                &&& after.heads[key].sequence == r.payload.sequence
                &&& after.heads[key].validity == r.payload.validity
                &&& after.heads[key].record_bytes == record_block(r)
                &&& after.heads[key].updated_at == now
            }
            &&& forall|k: Seq<char>|
                k != key && s.heads.dom().contains(k) ==> #[trigger] after.heads[k] == s.heads[k]
            &&& after.events == s.events
            &&& after.posts == s.posts
            &&& after.accounts == s.accounts
            &&& after.sync == s.sync
            &&& after.forks == s.forks
            &&& after.follows == s.follows
        }),
{
}

/// Issuing the record again gives one for the account's newest event, with a new life of
/// forty-eight hours, if the account has events, and nothing otherwise.
pub proof fn record_is_issued_again_for_the_newest_event(
    s: StoreModel,
    a: AccountState,
    now: i64,
)
    requires
        now + 172_800_000 <= i64::MAX,
        a.head is Some ==> a.next_seq > 0,
    ensures
        match a.head {
            Some(head) => republished(s, a, now).0 matches Some(r) && r.payload.value == head
                && r.payload.sequence == a.next_seq - 1 && r.payload.name == ed25519_public(a.seed)
                && r.payload.validity == now + 172_800_000 && republished(s, a, now).1
                == with_own_record(s, r, now),
            None => republished(s, a, now) == (None::<RecordModel>, s),
        },
{
}

// ---------------------------------------------------------------------------
// Accounts
// ---------------------------------------------------------------------------

/// An account that is unlocked goes on behind its event with the highest position in the store,
/// or at the beginning if the store has none of it.
pub proof fn account_goes_on_behind_its_highest_event(s: StoreModel, seed: Seq<u8>)
    ensures
        ({
            let a = state_from_store(s, seed);
            let author = ed25519_public(seed);
            &&& a.seed == seed
            &&& match a.head {
                Some(cid) => exists|i: int|
                    0 <= i < s.events.len() && {
                        let e = #[trigger] s.events[i];
                        &&& e.payload.author == author
                        &&& event_cid(e) == cid
                        &&& e.payload.seq < u64::MAX ==> a.next_seq == e.payload.seq + 1
                        &&& forall|j: int|
                            0 <= j < s.events.len() && (#[trigger] s.events[j]).payload.author
                                == author ==> s.events[j].payload.seq <= e.payload.seq
                    },
                None => a.next_seq == 0 && forall|i: int|
                    0 <= i < s.events.len() ==> (#[trigger] s.events[i]).payload.author != author,
            }
        }),
{
    let author = ed25519_public(seed);
    let key = account_key(seed);
    if exists|i: int| is_head_of(s, key, i) {
        let i = choose|i: int| is_head_of(s, key, i);
        head_event_at(s, key, i);
        newest_event_has_highest_position(s, key, i);
        hex_text_injective(s.events[i].payload.author, author);
        assert forall|j: int|
            0 <= j < s.events.len() && (#[trigger] s.events[j]).payload.author
                == author implies s.events[j].payload.seq <= s.events[i].payload.seq by {
            assert(hex_text(s.events[j].payload.author) == key);
        }
    } else {
        assert forall|i: int| 0 <= i < s.events.len() implies (
        #[trigger] s.events[i]).payload.author != author by {
            if s.events[i].payload.author == author {
                assert(events_by(key)(s.events[i]));
                newest_exists(s.events, events_by(key), i);
                let h = choose|h: int| is_newest_among(s.events, events_by(key), h);
                assert(is_head_of(s, key, h));
            }
        }
    }
}

/// An account is named by the hexadecimal text of its public key.
pub proof fn account_is_named_by_its_key(seed: Seq<u8>)
    ensures
        account_key(seed) == hex_text(ed25519_public(seed)),
{
}

// ---------------------------------------------------------------------------
// Keys that the user types
// ---------------------------------------------------------------------------

/// Whether a number is that of a hexadecimal digit in either case.
pub open spec fn is_digit_code(n: int) -> bool {
    48 <= n <= 57 || 97 <= n <= 102 || 65 <= n <= 70
}

/// A text with sixty-four hexadecimal digits, and blanks, tabs or ends of line around them,
/// stands for the key with those digits in lower case.
pub proof fn typed_key_is_taken_in_lower_case(
    before: Seq<char>,
    digits: Seq<char>,
    after: Seq<char>,
)
    requires
        digits.len() == 64,
        forall|i: int| 0 <= i < 64 ==> is_digit_code(#[trigger] digits[i] as int),
        forall|i: int|
            0 <= i < before.len() ==> {
                let n = #[trigger] before[i] as int;
                n == 32 || n == 9 || n == 10 || n == 13
            },
        forall|i: int|
            0 <= i < after.len() ==> {
                let n = #[trigger] after[i] as int;
                n == 32 || n == 9 || n == 10 || n == 13
            },
    ensures
        normalized_pubkey(before + digits + after) matches Some(key) && key.len() == 64 && forall|
            i: int,
        |
            0 <= i < 64 ==> (#[trigger] key[i]) as int == if 65 <= digits[i] as int <= 70 {
                digits[i] as int + 32
            } else {
                digits[i] as int
            },
{
    let input = before + digits + after;
    let p = before.len() as int;
    assert forall|j: int| 0 <= j < p implies is_space(#[trigger] input[j]) by {
        assert(input[j] == before[j]);
        let n = before[j] as int;
    }
    assert(input[p] == digits[0]);
    assert(is_digit_code(digits[0] as int));
    trim_front_at(input, p);
    let front = input.skip(p);
    assert(front =~= digits + after);
    assert forall|j: int| 64 <= j < front.len() implies is_space(#[trigger] front[j]) by {
        assert(front[j] == after[j - 64]);
        let n = after[j - 64] as int;
    }
    assert(front[63] == digits[63]);
    assert(is_digit_code(digits[63] as int));
    trim_back_at(front, 64);
    assert(front.take(64) =~= digits);
    assert forall|i: int| 0 <= i < 64 implies is_hex_digit(#[trigger] digits[i]) by {
        assert(is_digit_code(digits[i] as int));
    }
    let key = lower_text(digits);
    assert forall|i: int| 0 <= i < 64 implies (#[trigger] key[i]) as int == if 65 <= digits[i] as int
        <= 70 {
        digits[i] as int + 32
    } else {
        digits[i] as int
    } by {
        assert(is_digit_code(digits[i] as int));
        assert(key[i] == lower(digits[i]));
    }
}

proof fn trimmed_is_part(s: Seq<char>)
    ensures
        exists|i: int, j: int|
            0 <= i <= j <= s.len() && #[trigger] s.subrange(i, j) == trim_back(trim_front(s)),
{
    trim_front_is_part(s);
    let i = choose|i: int| 0 <= i <= s.len() && trim_front(s) == #[trigger] s.skip(i);
    let front = s.skip(i);
    trim_back_is_part(front);
    let n = choose|n: int| 0 <= n <= front.len() && trim_back(front) == #[trigger] front.take(n);
    assert(s.subrange(i, i + n) =~= front.take(n));
}

proof fn trim_front_is_part(s: Seq<char>)
    ensures
        exists|i: int| 0 <= i <= s.len() && trim_front(s) == #[trigger] s.skip(i),
    decreases s.len(),
{
    if s.len() > 0 && is_space(s[0]) {
        let rest = s.skip(1);
        trim_front_is_part(rest);
        let i = choose|i: int| 0 <= i <= rest.len() && trim_front(rest) == #[trigger] rest.skip(i);
        assert(s.skip(i + 1) =~= rest.skip(i));
    } else {
        assert(s.skip(0) =~= s);
    }
}

proof fn trim_back_is_part(s: Seq<char>)
    ensures
        exists|n: int| 0 <= n <= s.len() && trim_back(s) == #[trigger] s.take(n),
    decreases s.len(),
{
    if s.len() > 0 && is_space(s.last()) {
        let rest = s.drop_last();
        trim_back_is_part(rest);
        let n = choose|n: int| 0 <= n <= rest.len() && trim_back(rest) == #[trigger] rest.take(n);
        assert(s.take(n) =~= rest.take(n));
    } else {
        assert(s.take(s.len() as int) =~= s);
    }
}

/// A text that stands for a key holds its sixty-four digits in a row, in either case.
pub proof fn typed_key_holds_its_digits(input: Seq<char>)
    requires
        normalized_pubkey(input) is Some,
    ensures
        ({
            let key = normalized_pubkey(input)->0;
            &&& key.len() == 64
            &&& exists|i: int, j: int|
                0 <= i <= j <= input.len() && {
                    let t = #[trigger] input.subrange(i, j);
                    &&& t.len() == 64
                    &&& forall|k: int|
                        0 <= k < 64 ==> is_digit_code((#[trigger] t[k]) as int) && key[k] as int
                            == if 65 <= t[k] as int <= 70 {
                            t[k] as int + 32
                        } else {
                            t[k] as int
                        }
                }
        }),
{
    trimmed_is_part(input);
    let t = trim_back(trim_front(input));
    let (i, j) = choose|i: int, j: int|
        0 <= i <= j <= input.len() && #[trigger] input.subrange(i, j) == t;
    let key = lower_text(t);
    assert forall|k: int| 0 <= k < 64 implies is_digit_code((#[trigger] t[k]) as int)
        && key[k] as int == if 65 <= t[k] as int <= 70 {
        t[k] as int + 32
    } else {
        t[k] as int
    } by {
        assert(is_hex_digit(t[k]));
        assert(key[k] == lower(t[k]));
    }
    assert(input.subrange(i, j) == t);
}

/// White space is what Unicode calls so.
pub proof fn white_space_is_that_of_unicode(c: char)
    ensures
        ({
            let n = c as int;
            is_space(c) <==> n == 9 || n == 10 || n == 11 || n == 12 || n == 13 || n == 32 || n
                == 133 || n == 160 || n == 5760 || 8192 <= n <= 8202 || n == 8232 || n == 8233 || n
                == 8239 || n == 8287 || n == 12288
        }),
{
}

// ---------------------------------------------------------------------------
// What the user sees
// ---------------------------------------------------------------------------

/// The user sees a post of the timeline as it is.
pub proof fn post_view_is_the_row(r: TimelineRow)
    ensures
        ({
            let v = <PostView as vstd::std_specs::convert::FromSpec<TimelineRow>>::from_spec(r);
            &&& v.cid == r.cid
            &&& v.author == r.author
            &&& v.text == r.text
            &&& v.timestamp == r.timestamp
            &&& v.edited == r.edited
            &&& v.deleted == r.deleted
            &&& v.author_display_name == r.display_name
        }),
{
}

/// A view of a post says what is shown.
pub proof fn post_view_is_what_is_shown(v: PostView)
    ensures
        v@.0.cid == v.cid@,
        v@.0.author == v.author@,
        v@.0.text == v.text@,
        v@.0.timestamp == v.timestamp,
        v@.0.edited == v.edited,
        v@.0.deleted == v.deleted,
        v@.1 == opt_text(v.author_display_name),
{
}

/// A view of an account followed says what is shown.
pub proof fn follow_view_is_what_is_shown(v: FollowView)
    ensures
        v@.pubkey == v.pubkey@,
        v@.since == v.since,
        v@.display_name == opt_text(v.display_name),
{
}

/// A view of a fork names its account, its layer, its position and both CIDs.
pub proof fn fork_view_names_both_sides(v: ForkView, f: ForkModel)
    requires
        views_fork(v, f),
    ensures
        v.author@ == f.author,
        f.layer == ForkLayer::Event ==> v.layer@ == "event"@,
        f.layer == ForkLayer::Head ==> v.layer@ == "head"@,
        v.seq == f.seq,
        v.cid_a@ == f.cid_a,
        v.cid_b@ == f.cid_b,
        v.observed_at == f.observed_at,
{
}

// ---------------------------------------------------------------------------
// Following
// ---------------------------------------------------------------------------

/// Whoever types the key of another account follows it from then on, and that time is noted;
/// whoever was followed still is, since the time that was noted. One's own key, a text that is no
/// key, and a request without an account change nothing.
pub proof fn typed_key_is_followed(
    s: StoreModel,
    own: Seq<u8>,
    key: Seq<u8>,
    input: Seq<char>,
    now: i64,
)
    requires
        own.len() == 32,
        key.len() == 32,
    ensures
        ({
            let me = Some(hex_text(own));
            let after = store_after_follow(s, me, hex_text(key), now);
            let known = exists|i: int|
                0 <= i < s.follows.len() && (#[trigger] s.follows[i]).0 == hex_text(key);
            &&& key != own && !known ==> after.follows == s.follows.push((hex_text(key), now))
            &&& key == own || known ==> after == s
            &&& after.events == s.events
            &&& after.posts == s.posts
            &&& after.accounts == s.accounts
            &&& after.heads == s.heads
            &&& after.sync == s.sync
            &&& after.forks == s.forks
        }),
        store_after_follow(s, None, input, now) == s,
        normalized_pubkey(input) is None ==> store_after_follow(s, Some(hex_text(own)), input, now)
            == s,
{
    hex_text_is_normal(key);
    if hex_text(key) == hex_text(own) {
        hex_text_injective(key, own);
    }
}

/// Whoever types the key of an account that is followed follows it no longer, and all others
/// still.
pub proof fn typed_key_is_unfollowed(s: StoreModel, key: Seq<u8>)
    requires
        key.len() == 32,
    ensures
        ({
            let after = store_after_unfollow(s, hex_text(key));
            &&& forall|i: int|
                0 <= i < after.follows.len() ==> (#[trigger] after.follows[i]).0 != hex_text(key)
            &&& forall|f: (Seq<char>, i64)|
                f.0 != hex_text(key) ==> (#[trigger] after.follows.contains(f)
                    <==> s.follows.contains(f))
            &&& after.events == s.events
            &&& after.posts == s.posts
            &&& after.accounts == s.accounts
            &&& after.heads == s.heads
            &&& after.sync == s.sync
            &&& after.forks == s.forks
        }),
{
    hex_text_is_normal(key);
    let pred = other_than(hex_text(key));
    let after = store_after_unfollow(s, hex_text(key));
    assert forall|i: int| 0 <= i < after.follows.len() implies (#[trigger] after.follows[i]).0
        != hex_text(key) by {
        s.follows.lemma_filter_pred(pred, i);
    }
    assert forall|f: (Seq<char>, i64)| f.0 != hex_text(key) implies (
    #[trigger] after.follows.contains(f) <==> s.follows.contains(f)) by {
        if s.follows.contains(f) {
            let i = choose|i: int| 0 <= i < s.follows.len() && s.follows[i] == f;
            s.follows.lemma_filter_contains(pred, i);
        }
        if after.follows.contains(f) {
            let i = choose|i: int| 0 <= i < after.follows.len() && after.follows[i] == f;
            s.follows.lemma_filter_contains_rev(pred, after.follows[i]);
        }
    }
}

/// The announcement of an account that nobody here follows changes nothing and asks for
/// nothing.
pub proof fn stranger_is_ignored(s: StoreModel, r: RecordModel, now: i64)
    requires
        forall|i: int|
            0 <= i < s.follows.len() ==> (#[trigger] s.follows[i]).0 != hex_text(r.payload.name),
    ensures
        received(s, r, now) == (s, None::<NextModel>),
{
}

/// The signed announcement of an account that is followed, of which nothing is there yet, asks
/// for its head, and the session goes down to the five hundredth event from there, or to the
/// first.
pub proof fn followed_account_is_fetched(s: StoreModel, r: RecordModel, f: int, now: i64)
    requires
        0 <= f < s.follows.len(),
        s.follows[f].0 == hex_text(r.payload.name),
        ed25519_key_valid(r.payload.name),
        ed25519_verifies(
            r.payload.name,
            dag_cbor_bytes(record_payload_tree(r.payload)),
            r.signature,
        ),
        !s.sync.dom().contains(hex_text(r.payload.name)),
        forall|j: int|
            0 <= j < s.events.len() ==> event_cid(#[trigger] s.events[j]) != r.payload.value,
    ensures
        received(s, r, now).1 matches Some(NextModel::Fetch(m)) && {
            &&& m.record == r
            &&& m.cursor == Some(r.payload.value)
            &&& m.expected_seq == r.payload.sequence
            &&& r.payload.sequence < 500 ==> m.floor == 0
            &&& r.payload.sequence >= 500 ==> r.payload.sequence - m.floor == 499
            &&& m.chunk == 100
            &&& m.budget == 1_000
        },
{
    let limits = LimitsModel { window: 500, chunk: 100, budget: 1_000 };
    assert(follows_account(s, hex_text(r.payload.name)));
    unknown_chain_is_wanted_to_the_window(s, r, 500);
    good_record_asks_for_its_head(s, r, limits, now);
}

} // verus!
