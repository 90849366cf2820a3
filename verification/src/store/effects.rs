//! What each operation of the store does, said of the fields of events and records.

use crate::cid::cid_text;
use crate::event::{envelope_block, envelope_of_block, event_cid, EnvelopeModel, KindModel};
use crate::head::{record_block, record_of_bytes, RecordModel};
use crate::order::{
    bytes_before_is_lexicographic, bytes_before_total, newest_first, newest_first_sorts,
    text_before,
};
use crate::projection::{
    deletes, edit_text, edits, event_index, has_event, is_newest_among, is_post, is_profile_of, is_winning_edit, last_write_wins,
    latest_profile, latest_profile_is_newest, new_post, post_after, post_after_same, posts_made,
    projection, run_bottom, same_post, PostRowModel,
};
use crate::store::laws::{
    contradiction_is_among, fork_with, posts_carry_edits_and_deletions, posts_made_contains,
};
use crate::store::model::{
    account_at, add_fork, empty_store, event_forks, events_by, fork_known, fork_of, forks_of, head_fork, is_head_of,
    on_timeline, other_than, post_of, posts_by, profiles_by, run_bottom_from, same_fork, shown_follows, shown_name_at, shown_posts_by, shown_timeline,
    timeline_posts, with_event, with_follow, with_head_cid, with_record, with_snapshot_name,
    without_follow, AccountModel, ForkLayer, ForkModel, StoreModel, SyncModel,
};
use crate::store::{
    is_broken, opt_text, readable_blocks, repair_of, shows_account, shows_fork, shows_sync,
    store_consistent, target_of, AccountRow, FollowRow, ForkRow, PostRow, SavedRowModel,
    SyncStateRow, TimelineRow,
};
use crate::util::hex_text;
use vstd::prelude::*;
use vstd::utf8::encode_utf8;

verus! {

// ---------------------------------------------------------------------------
// Events
// ---------------------------------------------------------------------------

/// An event is kept once, behind those that are there, whatever it says; one whose CID is there
/// already changes nothing. Head records, progress and follows have no part in it.
pub proof fn event_is_kept_once(s: StoreModel, e: EnvelopeModel, now: i64)
    ensures
        (exists|i: int| 0 <= i < s.events.len() && event_cid(#[trigger] s.events[i]) == event_cid(e))
            ==> with_event(s, e, now) == s,
        (forall|i: int|
            0 <= i < s.events.len() ==> event_cid(#[trigger] s.events[i]) != event_cid(e))
            ==> with_event(s, e, now).events == s.events.push(e),
        with_event(s, e, now).heads == s.heads,
        with_event(s, e, now).sync == s.sync,
        with_event(s, e, now).follows == s.follows,
{
}

// ---------------------------------------------------------------------------
// Posts
// ---------------------------------------------------------------------------

/// Every post of a store comes from a post event: it has its CID, author, position and time.
pub proof fn post_has_its_event(s: StoreModel, k: int)
    requires
        store_consistent(s),
        0 <= k < s.posts.len(),
    ensures
        exists|i: int|
            0 <= i < s.events.len() && (#[trigger] s.events[i]).payload.kind is Post && event_cid(
                s.events[i],
            ) == s.posts[k].cid && s.events[i].payload.author == s.posts[k].author
                && s.events[i].payload.seq == s.posts[k].seq && s.events[i].payload.timestamp
                == s.posts[k].timestamp,
{
    posts_carry_edits_and_deletions(s, k);
}

/// Every post event of a store has made a post, and no two posts share a CID.
pub proof fn post_events_make_posts(s: StoreModel)
    requires
        store_consistent(s),
    ensures
        forall|i: int|
            0 <= i < s.events.len() && (#[trigger] s.events[i]).payload.kind is Post
                ==> exists|k: int|
                0 <= k < s.posts.len() && (#[trigger] s.posts[k]).cid == event_cid(s.events[i]),
        forall|k: int, m: int|
            0 <= k < m < s.posts.len() ==> (#[trigger] s.posts[k]).cid != (#[trigger] s.posts[m]).cid,
{
    assert forall|i: int|
        0 <= i < s.events.len() && (#[trigger] s.events[i]).payload.kind is Post implies exists|
        k: int,
    | 0 <= k < s.posts.len() && (#[trigger] s.posts[k]).cid == event_cid(s.events[i]) by {
        let row = post_after(
            new_post(s.events[i]),
            s.events,
        );
        posts_made_contains(s.events, s.events, row);
        post_after_same(new_post(s.events[i]), s.events);
        let k = choose|k: int| 0 <= k < s.posts.len() && s.posts[k] == row;
        assert(s.posts[k].cid == event_cid(s.events[i]));
    }
    made_posts_have_own_cids(s.events, s.events);
}

proof fn made_posts_have_own_cids(makers: Seq<EnvelopeModel>, all: Seq<EnvelopeModel>)
    requires
        forall|i: int, j: int|
            0 <= i < j < makers.len() ==> event_cid(#[trigger] makers[i]) != event_cid(
                #[trigger] makers[j],
            ),
    ensures
        forall|k: int, m: int|
            0 <= k < m < posts_made(makers, all).len() ==> (#[trigger] posts_made(
                makers,
                all,
            )[k]).cid != (#[trigger] posts_made(makers, all)[m]).cid,
    decreases makers.len(),
{
    if makers.len() > 0 {
        let init = makers.drop_last();
        let e = makers.last();
        assert forall|i: int, j: int| 0 <= i < j < init.len() implies event_cid(
            #[trigger] init[i],
        ) != event_cid(#[trigger] init[j]) by {
            assert(init[i] == makers[i] && init[j] == makers[j]);
        }
        made_posts_have_own_cids(init, all);
        let before = posts_made(init, all);
        let row = post_after(new_post(e), all);
        post_after_same(new_post(e), all);
        assert forall|k: int| 0 <= k < before.len() implies (#[trigger] before[k]).cid
            != event_cid(e) by {
            posts_made_contains(init, all, before[k]);
            assert(before.contains(before[k]));
            let i = choose|i: int|
                0 <= i < init.len() && is_post(#[trigger] init[i]) && before[k]
                    == post_after(new_post(init[i]), all);
            post_after_same(new_post(init[i]), all);
            assert(init[i] == makers[i]);
            assert(event_cid(makers[i]) != event_cid(makers[makers.len() - 1]));
        }
    }
}

/// A post is shown as deleted if and only if its author signed a deletion of it, whenever that
/// was and in whatever order the two came.
pub proof fn post_is_deleted_by_its_author(s: StoreModel, k: int)
    requires
        store_consistent(s),
        0 <= k < s.posts.len(),
    ensures
        s.posts[k].deleted <==> exists|j: int|
            0 <= j < s.events.len() && (#[trigger] s.events[j]).payload.author == s.posts[k].author
                && s.events[j].payload.kind == (KindModel::Delete { target: s.posts[k].cid }),
{
    posts_carry_edits_and_deletions(s, k);
    let i = choose|i: int|
        #![trigger s.events[i]]
        0 <= i < s.events.len() && is_post(s.events[i]) && {
            let made = new_post(s.events[i]);
            let shown = s.posts[k];
            &&& same_post(shown, made)
            &&& shown.deleted <==> exists|j: int|
                0 <= j < s.events.len() && deletes(#[trigger] s.events[j], made)
        };
    let made = new_post(s.events[i]);
    assert forall|j: int| 0 <= j < s.events.len() implies (deletes(
        #[trigger] s.events[j],
        made,
    ) <==> s.events[j].payload.author == s.posts[k].author && s.events[j].payload.kind == (
    KindModel::Delete { target: s.posts[k].cid })) by {}
}

/// A post has the whole text of the edit with the highest position that its author signed for
/// it, as long as that is above the post's own position; without one it has the whole text of
/// its event and does not count as edited.
pub proof fn post_has_text_of_highest_edit(s: StoreModel, k: int)
    requires
        store_consistent(s),
        0 <= k < s.posts.len(),
    ensures
        ({
            let p = s.posts[k];
            ||| {
                &&& p.edited
                &&& exists|j: int|
                    0 <= j < s.events.len() && (#[trigger] s.events[j]).payload.author == p.author
                        && s.events[j].payload.seq > p.seq && s.events[j].payload.kind == (
                    KindModel::Edit { text: p.text, target: p.cid }) && forall|m: int|
                        0 <= m < s.events.len() && (#[trigger] s.events[m]).payload.author
                            == p.author && (s.events[m].payload.kind matches KindModel::Edit {
                            target,
                            ..
                        } && target == p.cid) ==> s.events[m].payload.seq
                            <= s.events[j].payload.seq
            }
            ||| {
                &&& !p.edited
                &&& forall|m: int|
                    0 <= m < s.events.len() && (#[trigger] s.events[m]).payload.author == p.author
                        && (s.events[m].payload.kind matches KindModel::Edit { target, .. }
                        && target == p.cid) ==> s.events[m].payload.seq <= p.seq
                &&& exists|i: int|
                    0 <= i < s.events.len() && event_cid(#[trigger] s.events[i]) == p.cid
                        && s.events[i].payload.kind == (KindModel::Post { text: p.text })
            }
        }),
{
    let p = s.posts[k];
    assert(projection(s.events).contains(p));
    posts_made_contains(s.events, s.events, p);
    let i = choose|i: int|
        0 <= i < s.events.len() && is_post(#[trigger] s.events[i]) && p
            == post_after(new_post(s.events[i]), s.events);
    let made = new_post(s.events[i]);
    last_write_wins(made, s.events);
    assert forall|m: int| 0 <= m < s.events.len() implies (edits(
        #[trigger] s.events[m],
        made,
    ) <==> s.events[m].payload.author == p.author && (s.events[m].payload.kind matches
        KindModel::Edit { target, .. } && target == p.cid)) by {}
    if exists|j: int| is_winning_edit(made, s.events, j) && p.text
        == edit_text(s.events[j]) && p.latest_edit_seq
        == s.events[j].payload.seq && p.edited {
        let j = choose|j: int| is_winning_edit(made, s.events, j) && p.text
            == edit_text(s.events[j]) && p.latest_edit_seq
            == s.events[j].payload.seq && p.edited;
        assert(edits(s.events[j], made));
        assert(s.events[j].payload.kind == (KindModel::Edit { text: p.text, target: p.cid }));
    } else {
        assert(event_cid(s.events[i]) == p.cid);
        assert(s.events[i].payload.kind == (KindModel::Post { text: p.text }));
    }
}

// ---------------------------------------------------------------------------
// Lists
// ---------------------------------------------------------------------------

/// The places of the elements that a filter keeps.
spec fn kept_places<A>(s: Seq<A>, pred: spec_fn(A) -> bool) -> Seq<int>
    decreases s.len(),
{
    if s.len() == 0 {
        Seq::empty()
    } else {
        let before = kept_places(s.drop_last(), pred);
        if pred(s.last()) {
            before.push(s.len() - 1)
        } else {
            before
        }
    }
}

proof fn filter_keeps_places<A>(s: Seq<A>, pred: spec_fn(A) -> bool)
    ensures
        kept_places(s, pred).len() == s.filter(pred).len(),
        forall|a: int|
            0 <= a < kept_places(s, pred).len() ==> 0 <= #[trigger] kept_places(s, pred)[a]
                < s.len() && pred(s[kept_places(s, pred)[a]]) && s.filter(pred)[a] == s[kept_places(
                s,
                pred,
            )[a]],
        forall|a: int, b: int|
            0 <= a < b < kept_places(s, pred).len() ==> #[trigger] kept_places(s, pred)[a]
                < #[trigger] kept_places(s, pred)[b],
        forall|k: int|
            0 <= k < s.len() && pred(#[trigger] s[k]) ==> kept_places(s, pred).contains(k),
    decreases s.len(),
{
    reveal(Seq::filter);
    if s.len() > 0 {
        let init = s.drop_last();
        filter_keeps_places(init, pred);
        let before = kept_places(init, pred);
        let after = kept_places(s, pred);
        assert forall|a: int| 0 <= a < before.len() implies init[#[trigger] before[a]]
            == s[before[a]] by {}
        assert forall|k: int| 0 <= k < s.len() && pred(#[trigger] s[k]) implies after.contains(
            k,
        ) by {
            if k < init.len() {
                assert(init[k] == s[k]);
                assert(before.contains(k));
                let a = choose|a: int| 0 <= a < before.len() && before[a] == k;
                assert(after[a] == k);
            } else {
                assert(after[before.len() as int] == k);
            }
        }
    }
}

/// Whether `order` lists places below `n`, none twice.
pub open spec fn lists_places(order: Seq<int>, n: nat) -> bool {
    &&& forall|a: int| 0 <= a < order.len() ==> 0 <= #[trigger] order[a] < n
    &&& forall|a: int, b: int|
        0 <= a < b < order.len() ==> #[trigger] order[a] != #[trigger] order[b]
}

/// The places of the elements that a filter keeps, in the order of their keys.
spec fn ordered_places<A>(s: Seq<A>, pred: spec_fn(A) -> bool, keys: Seq<int>) -> Seq<int> {
    newest_first(keys, keys.len()).map_values(|i: int| kept_places(s, pred)[i])
}

proof fn ordered_places_facts<A>(s: Seq<A>, pred: spec_fn(A) -> bool, keys: Seq<int>)
    requires
        keys.len() == s.filter(pred).len(),
    ensures
        ({
            let order = ordered_places(s, pred, keys);
            let sorted = newest_first(keys, keys.len());
            &&& lists_places(order, s.len())
            &&& order.len() == keys.len()
            &&& forall|a: int|
                0 <= a < order.len() ==> 0 <= #[trigger] sorted[a] < keys.len() && s.filter(
                    pred,
                )[sorted[a]] == s[order[a]] && pred(s[order[a]])
            &&& forall|a: int, b: int|
                0 <= a < b < order.len() ==> keys[#[trigger] sorted[a]] >= keys[#[trigger] sorted[b]]
            &&& forall|k: int|
                0 <= k < s.len() && pred(#[trigger] s[k]) ==> order.contains(k)
        }),
{
    let order = ordered_places(s, pred, keys);
    let sorted = newest_first(keys, keys.len());
    let places = kept_places(s, pred);
    filter_keeps_places(s, pred);
    newest_first_sorts(keys, keys.len());
    assert forall|a: int| 0 <= a < order.len() implies 0 <= #[trigger] order[a] < s.len() by {
        assert(0 <= sorted[a] < places.len());
        assert(order[a] == places[sorted[a]]);
    }
    assert forall|a: int, b: int| 0 <= a < b < order.len() implies #[trigger] order[a]
        != #[trigger] order[b] by {
        assert(sorted[a] != sorted[b]);
        assert(order[a] == places[sorted[a]] && order[b] == places[sorted[b]]);
        if sorted[a] < sorted[b] {
            assert(places[sorted[a]] < places[sorted[b]]);
        } else {
            assert(places[sorted[b]] < places[sorted[a]]);
        }
    }
    assert forall|k: int| 0 <= k < s.len() && pred(#[trigger] s[k]) implies order.contains(k) by {
        assert(places.contains(k));
        let i = choose|i: int| 0 <= i < places.len() && places[i] == k;
        assert(sorted.contains(i));
        let a = choose|a: int| 0 <= a < sorted.len() && sorted[a] == i;
        assert(order[a] == k);
    }
}

/// The list of an account's posts holds each of its posts once, whole, deleted or not, and no
/// other, by falling position.
pub proof fn list_holds_every_post_of_the_author(s: StoreModel, key: Seq<char>)
    ensures
        exists|order: Seq<int>|
            {
                let shown = shown_posts_by(s, key);
                &&& #[trigger] lists_places(order, s.posts.len())
                &&& order.len() == shown.len()
                &&& forall|a: int|
                    0 <= a < order.len() ==> {
                        let p = s.posts[#[trigger] order[a]];
                        &&& hex_text(p.author) == key
                        &&& shown[a].cid == cid_text(p.cid)
                        &&& shown[a].author == hex_text(p.author)
                        &&& shown[a].text == p.text
                        &&& shown[a].timestamp == p.timestamp
                        &&& shown[a].edited == p.edited
                        &&& shown[a].deleted == p.deleted
                    }
                &&& forall|a: int, b: int|
                    0 <= a < b < order.len() ==> s.posts[#[trigger] order[a]].seq
                        >= s.posts[#[trigger] order[b]].seq
                &&& forall|k: int|
                    0 <= k < s.posts.len() && hex_text((#[trigger] s.posts[k]).author) == key
                        ==> order.contains(k)
            },
{
    let rows = posts_by(s, key);
    let keys = rows.map_values(|p: PostRowModel| p.seq as int);
    let order = ordered_places(s.posts, post_of(key), keys);
    let sorted = newest_first(keys, keys.len());
    let shown = shown_posts_by(s, key);
    ordered_places_facts(s.posts, post_of(key), keys);
    assert forall|a: int| 0 <= a < order.len() implies {
        let p = s.posts[#[trigger] order[a]];
        &&& hex_text(p.author) == key
        &&& shown[a].cid == cid_text(p.cid)
        &&& shown[a].author == hex_text(p.author)
        &&& shown[a].text == p.text
        &&& shown[a].timestamp == p.timestamp
        &&& shown[a].edited == p.edited
        &&& shown[a].deleted == p.deleted
    } by {
        assert(rows[sorted[a]] == s.posts[order[a]]);
    }
    assert forall|a: int, b: int| 0 <= a < b < order.len() implies s.posts[#[trigger] order[a]].seq
        >= s.posts[#[trigger] order[b]].seq by {
        assert(keys[sorted[a]] >= keys[sorted[b]]);
        assert(rows[sorted[a]] == s.posts[order[a]] && rows[sorted[b]] == s.posts[order[b]]);
    }
    assert(lists_places(order, s.posts.len()));
}

/// The timeline holds each post of the account itself and of the accounts followed once, whole,
/// deleted or not, with the name of its author, and no other, by falling time.
pub proof fn timeline_holds_every_post_once(s: StoreModel, key: Seq<char>)
    ensures
        exists|order: Seq<int>|
            {
                let shown = shown_timeline(s, key);
                &&& #[trigger] lists_places(order, s.posts.len())
                &&& order.len() == shown.len()
                &&& forall|a: int|
                    0 <= a < order.len() ==> {
                        let p = s.posts[#[trigger] order[a]];
                        let author = hex_text(p.author);
                        &&& author == key || exists|f: int|
                            0 <= f < s.follows.len() && (#[trigger] s.follows[f]).0 == author
                        &&& shown[a].0.cid == cid_text(p.cid)
                        &&& shown[a].0.author == author
                        &&& shown[a].0.text == p.text
                        &&& shown[a].0.timestamp == p.timestamp
                        &&& shown[a].0.edited == p.edited
                        &&& shown[a].0.deleted == p.deleted
                        &&& shown[a].1 == shown_name_at(s.accounts, author)
                    }
                &&& forall|a: int, b: int|
                    0 <= a < b < order.len() ==> s.posts[#[trigger] order[a]].timestamp
                        >= s.posts[#[trigger] order[b]].timestamp
                &&& forall|k: int|
                    0 <= k < s.posts.len() && (hex_text((#[trigger] s.posts[k]).author) == key
                        || exists|f: int|
                        0 <= f < s.follows.len() && (#[trigger] s.follows[f]).0 == hex_text(
                            s.posts[k].author,
                        )) ==> order.contains(k)
            },
{
    let rows = timeline_posts(s, key);
    let keys = rows.map_values(|p: PostRowModel| p.timestamp as int);
    let order = ordered_places(s.posts, on_timeline(s, key), keys);
    let sorted = newest_first(keys, keys.len());
    let shown = shown_timeline(s, key);
    ordered_places_facts(s.posts, on_timeline(s, key), keys);
    assert forall|a: int| 0 <= a < order.len() implies {
        let p = s.posts[#[trigger] order[a]];
        let author = hex_text(p.author);
        &&& author == key || exists|f: int|
            0 <= f < s.follows.len() && (#[trigger] s.follows[f]).0 == author
        &&& shown[a].0.cid == cid_text(p.cid)
        &&& shown[a].0.author == author
        &&& shown[a].0.text == p.text
        &&& shown[a].0.timestamp == p.timestamp
        &&& shown[a].0.edited == p.edited
        &&& shown[a].0.deleted == p.deleted
        &&& shown[a].1 == shown_name_at(s.accounts, author)
    } by {
        assert(rows[sorted[a]] == s.posts[order[a]]);
    }
    assert forall|a: int, b: int|
        0 <= a < b < order.len() implies s.posts[#[trigger] order[a]].timestamp
        >= s.posts[#[trigger] order[b]].timestamp by {
        assert(keys[sorted[a]] >= keys[sorted[b]]);
        assert(rows[sorted[a]] == s.posts[order[a]] && rows[sorted[b]] == s.posts[order[b]]);
    }
    assert(lists_places(order, s.posts.len()));
}

/// The list of follows holds each account followed once, with the time since when and the name
/// under which it is shown, the latest first.
pub proof fn follows_are_listed_once(s: StoreModel)
    ensures
        exists|order: Seq<int>|
            {
                let shown = shown_follows(s);
                &&& #[trigger] lists_places(order, s.follows.len())
                &&& order.len() == shown.len()
                &&& order.len() == s.follows.len()
                &&& forall|a: int|
                    0 <= a < order.len() ==> {
                        let f = s.follows[#[trigger] order[a]];
                        &&& shown[a].pubkey == f.0
                        &&& shown[a].since == f.1
                        &&& shown[a].display_name == shown_name_at(s.accounts, f.0)
                    }
                &&& forall|a: int, b: int|
                    0 <= a < b < order.len() ==> s.follows[#[trigger] order[a]].1
                        >= s.follows[#[trigger] order[b]].1
            },
{
    let keys = s.follows.map_values(|f: (Seq<char>, i64)| f.1 as int);
    let order = newest_first(keys, s.follows.len());
    newest_first_sorts(keys, s.follows.len());
    assert forall|a: int, b: int| 0 <= a < b < order.len() implies s.follows[#[trigger] order[a]].1
        >= s.follows[#[trigger] order[b]].1 by {
        assert(keys[order[a]] >= keys[order[b]]);
    }
    assert(lists_places(order, s.follows.len()));
}

/// The list of forks holds each fork of the account, or every fork if none is named, once, in
/// the order in which they were seen.
pub proof fn forks_are_listed_in_order(s: StoreModel, key: Option<Seq<char>>)
    ensures
        exists|order: Seq<int>|
            {
                let listed = forks_of(s, key);
                &&& #[trigger] lists_places(order, s.forks.len())
                &&& order.len() == listed.len()
                &&& forall|a: int|
                    0 <= a < order.len() ==> listed[a] == s.forks[#[trigger] order[a]] && (key
                        matches Some(k) ==> listed[a].author == k)
                &&& forall|a: int, b: int|
                    0 <= a < b < order.len() ==> #[trigger] order[a] < #[trigger] order[b]
                &&& forall|i: int|
                    0 <= i < s.forks.len() && (key is None || (#[trigger] s.forks[i]).author
                        == key->0) ==> order.contains(i)
            },
{
    let order = kept_places(s.forks, fork_of(key));
    filter_keeps_places(s.forks, fork_of(key));
    assert forall|i: int|
        0 <= i < s.forks.len() && (key is None || (#[trigger] s.forks[i]).author
            == key->0) implies order.contains(i) by {
        assert(fork_of(key)(s.forks[i]));
    }
    assert(lists_places(order, s.forks.len()));
}

// ---------------------------------------------------------------------------
// Forks
// ---------------------------------------------------------------------------

/// When an author has two different events for one position, a fork with both is known as soon
/// as the second is there, whatever else the two events say. If the pair is new, the fork holds
/// both blocks, each beside its own CID.
pub proof fn second_event_for_a_position_is_a_fork(
    s: StoreModel,
    e: EnvelopeModel,
    i: int,
    now: i64,
)
    requires
        0 <= i < s.events.len(),
        s.events[i].payload.author == e.payload.author,
        s.events[i].payload.seq == e.payload.seq,
        forall|j: int|
            0 <= j < s.events.len() ==> event_cid(#[trigger] s.events[j]) != event_cid(e),
    ensures
        ({
            let forks = with_event(s, e, now).forks;
            let x = s.events[i];
            exists|j: int|
                0 <= j < forks.len() && {
                    let f = #[trigger] forks[j];
                    &&& f.author == hex_text(e.payload.author)
                    &&& f.layer == ForkLayer::Event
                    &&& f.seq == e.payload.seq
                    &&& (f.cid_a == cid_text(event_cid(x)) && f.cid_b == cid_text(event_cid(e)))
                        || (f.cid_a == cid_text(event_cid(e)) && f.cid_b == cid_text(event_cid(x)))
                }
        }),
{
    let forks = with_event(s, e, now).forks;
    let x = s.events[i];
    assert(event_cid(x) != event_cid(e));
    contradiction_is_among(s.forks, s.events, e, i, now);
    let known = fork_with(x, e, now);
    let j = choose|j: int|
        0 <= j < forks.len() && same_fork(#[trigger] forks[j], known);
    let f = forks[j];
    assert(f.author == hex_text(e.payload.author));
}

/// A new event adds only forks between itself and events of its author for its position, with
/// both blocks as evidence, and it loses none.
pub proof fn new_forks_are_real(s: StoreModel, e: EnvelopeModel, j: int, now: i64)
    requires
        s.forks.len() <= j < with_event(s, e, now).forks.len(),
    ensures
        ({
            let f = with_event(s, e, now).forks[j];
            &&& f.author == hex_text(e.payload.author)
            &&& f.layer == ForkLayer::Event
            &&& f.seq == e.payload.seq
            &&& f.observed_at == now
            &&& exists|i: int|
                0 <= i < s.events.len() && {
                    let x = #[trigger] s.events[i];
                    &&& x.payload.author == e.payload.author
                    &&& x.payload.seq == e.payload.seq
                    &&& event_cid(x) != event_cid(e)
                    &&& {
                        ||| {
                            &&& f.cid_a == cid_text(event_cid(x))
                            &&& f.evidence_a == envelope_block(x)
                            &&& f.cid_b == cid_text(event_cid(e))
                            &&& f.evidence_b == envelope_block(e)
                        }
                        ||| {
                            &&& f.cid_a == cid_text(event_cid(e))
                            &&& f.evidence_a == envelope_block(e)
                            &&& f.cid_b == cid_text(event_cid(x))
                            &&& f.evidence_b == envelope_block(x)
                        }
                    }
                }
        }),
{
    added_fork_is_real(s.forks, s.events, e, j, now);
}

proof fn added_fork_is_real(
    forks: Seq<ForkModel>,
    events: Seq<EnvelopeModel>,
    e: EnvelopeModel,
    j: int,
    now: i64,
)
    requires
        forks.len() <= j < event_forks(forks, events, e, now).len(),
    ensures
        ({
            let f = event_forks(forks, events, e, now)[j];
            &&& f.author == hex_text(e.payload.author)
            &&& f.layer == ForkLayer::Event
            &&& f.seq == e.payload.seq
            &&& f.observed_at == now
            &&& exists|i: int|
                0 <= i < events.len() && {
                    let x = #[trigger] events[i];
                    &&& x.payload.author == e.payload.author
                    &&& x.payload.seq == e.payload.seq
                    &&& event_cid(x) != event_cid(e)
                    &&& {
                        ||| {
                            &&& f.cid_a == cid_text(event_cid(x))
                            &&& f.evidence_a == envelope_block(x)
                            &&& f.cid_b == cid_text(event_cid(e))
                            &&& f.evidence_b == envelope_block(e)
                        }
                        ||| {
                            &&& f.cid_a == cid_text(event_cid(e))
                            &&& f.evidence_a == envelope_block(e)
                            &&& f.cid_b == cid_text(event_cid(x))
                            &&& f.evidence_b == envelope_block(x)
                        }
                    }
                }
        }),
    decreases events.len(),
{
    let init = events.drop_last();
    let before = event_forks(forks, init, e, now);
    let all = event_forks(forks, events, e, now);
    if j < before.len() {
        added_fork_is_real(forks, init, e, j, now);
        assert(all[j] == before[j]);
        assert forall|i: int| 0 <= i < init.len() implies #[trigger] init[i] == events[i] by {}
    } else {
        assert(events[events.len() - 1] == events.last());
    }
}

/// A new event leaves the forks that were there as they were, in their order.
pub proof fn known_forks_stay(s: StoreModel, e: EnvelopeModel, now: i64)
    ensures
        s.forks.len() <= with_event(s, e, now).forks.len(),
        forall|j: int|
            0 <= j < s.forks.len() ==> #[trigger] with_event(s, e, now).forks[j] == s.forks[j],
{
    event_forks_prefix(s.forks, s.events, e, now);
}

proof fn event_forks_prefix(
    forks: Seq<ForkModel>,
    events: Seq<EnvelopeModel>,
    e: EnvelopeModel,
    now: i64,
)
    ensures
        forks.len() <= event_forks(forks, events, e, now).len(),
        forall|j: int|
            0 <= j < forks.len() ==> #[trigger] event_forks(forks, events, e, now)[j] == forks[j],
    decreases events.len(),
{
    if events.len() > 0 {
        event_forks_prefix(forks, events.drop_last(), e, now);
    }
}

/// A fork that comes in has the lesser of its two texts first, compared byte by byte: they agree
/// up to some place, where the first ends or has the lesser byte.
pub proof fn fork_has_lesser_cid_first(s: StoreModel, e: EnvelopeModel, j: int, now: i64)
    requires
        s.forks.len() <= j < with_event(s, e, now).forks.len(),
    ensures
        ({
            let f = with_event(s, e, now).forks[j];
            let a = encode_utf8(f.cid_a);
            let b = encode_utf8(f.cid_b);
            a == b || exists|d: int|
                0 <= d <= a.len() && d < b.len() && #[trigger] a.take(d) == b.take(d) && (d
                    == a.len() || a[d] < b[d])
        }),
{
    added_fork_is_ordered(s.forks, s.events, e, j, now);
    let f = with_event(s, e, now).forks[j];
    let a = encode_utf8(f.cid_a);
    let b = encode_utf8(f.cid_b);
    if a != b {
        bytes_before_total(a, b);
        bytes_before_is_lexicographic(a, b);
    }
}

proof fn added_fork_is_ordered(
    forks: Seq<ForkModel>,
    events: Seq<EnvelopeModel>,
    e: EnvelopeModel,
    j: int,
    now: i64,
)
    requires
        forks.len() <= j < event_forks(forks, events, e, now).len(),
    ensures
        ({
            let f = event_forks(forks, events, e, now)[j];
            text_before(f.cid_a, f.cid_b) || !text_before(f.cid_b, f.cid_a)
        }),
    decreases events.len(),
{
    let before = event_forks(forks, events.drop_last(), e, now);
    if j < before.len() {
        added_fork_is_ordered(forks, events.drop_last(), e, j, now);
    }
}

// ---------------------------------------------------------------------------
// Places in a chain
// ---------------------------------------------------------------------------

/// The newest event of an account is the one with the highest position among its events, the
/// first to arrive if several have it.
pub proof fn newest_event_has_highest_position(s: StoreModel, key: Seq<char>, i: int)
    ensures
        is_head_of(s, key, i) <==> {
            &&& 0 <= i < s.events.len()
            &&& hex_text(s.events[i].payload.author) == key
            &&& forall|j: int|
                0 <= j < s.events.len() && hex_text((#[trigger] s.events[j]).payload.author) == key
                    ==> s.events[j].payload.seq < s.events[i].payload.seq
                    || (s.events[j].payload.seq == s.events[i].payload.seq && i <= j)
        },
{
    if 0 <= i < s.events.len() {
        assert forall|j: int| 0 <= j < s.events.len() implies (events_by(key)(
            #[trigger] s.events[j],
        ) <==> hex_text(s.events[j].payload.author) == key) by {}
        if is_head_of(s, key, i) {
            assert forall|j: int|
                0 <= j < s.events.len() && hex_text((#[trigger] s.events[j]).payload.author)
                    == key implies s.events[j].payload.seq < s.events[i].payload.seq
                || (s.events[j].payload.seq == s.events[i].payload.seq && i <= j) by {
                assert(events_by(key)(s.events[j]));
            }
        }
    }
}

/// The newest profile event of an account is the one with the highest position among its
/// profile events, the first to arrive if several have it.
pub proof fn newest_profile_has_highest_position(s: StoreModel, key: Seq<char>, i: int)
    ensures
        is_newest_among(s.events, profiles_by(key), i) <==> {
            &&& 0 <= i < s.events.len()
            &&& hex_text(s.events[i].payload.author) == key
            &&& s.events[i].payload.kind is Profile
            &&& forall|j: int|
                0 <= j < s.events.len() && hex_text((#[trigger] s.events[j]).payload.author) == key
                    && s.events[j].payload.kind is Profile ==> s.events[j].payload.seq
                    < s.events[i].payload.seq || (s.events[j].payload.seq
                    == s.events[i].payload.seq && i <= j)
        },
{
    if 0 <= i < s.events.len() {
        assert forall|j: int| 0 <= j < s.events.len() implies (profiles_by(key)(
            #[trigger] s.events[j],
        ) <==> hex_text(s.events[j].payload.author) == key && s.events[j].payload.kind is Profile) by {}
        if is_newest_among(s.events, profiles_by(key), i) {
            assert forall|j: int|
                0 <= j < s.events.len() && hex_text((#[trigger] s.events[j]).payload.author) == key
                    && s.events[j].payload.kind is Profile implies s.events[j].payload.seq
                < s.events[i].payload.seq || (s.events[j].payload.seq == s.events[i].payload.seq && i
                <= j) by {
                assert(profiles_by(key)(s.events[j]));
            }
        }
    }
}

/// Whether every event that is there with its predecessor has the position after it.
pub open spec fn links_are_sound(events: Seq<EnvelopeModel>) -> bool {
    forall|x: int, y: int|
        0 <= x < events.len() && 0 <= y < events.len() && (#[trigger] events[x]).payload.prev
            == Some(event_cid(#[trigger] events[y])) ==> events[x].payload.seq
            == events[y].payload.seq + 1
}

/// Whether some event has the position `q`.
pub open spec fn has_position(events: Seq<EnvelopeModel>, q: int) -> bool {
    exists|i: int| 0 <= i < events.len() && (#[trigger] events[i]).payload.seq == q
}

proof fn positions_fit(events: Seq<EnvelopeModel>, lo: int, hi: int)
    requires
        lo <= hi,
        forall|q: int| lo <= q < hi ==> #[trigger] has_position(events, q),
    ensures
        events.len() >= hi - lo,
    decreases hi - lo,
{
    if lo < hi {
        let last = hi - 1;
        assert(has_position(events, last));
        let i = choose|i: int| 0 <= i < events.len() && (#[trigger] events[i]).payload.seq == last;
        let rest = events.remove(i);
        assert forall|q: int| lo <= q < last implies #[trigger] has_position(rest, q) by {
            assert(has_position(events, q));
            let k = choose|k: int| 0 <= k < events.len() && (#[trigger] events[k]).payload.seq == q;
            if k < i {
                assert(rest[k] == events[k]);
            } else {
                assert(rest[k - 1] == events[k]);
            }
        }
        positions_fit(rest, lo, last);
    }
}

proof fn run_goes_down(events: Seq<EnvelopeModel>, i: int, steps: nat)
    requires
        links_are_sound(events),
        0 <= i < events.len(),
    ensures
        ({
            let b = run_bottom(events, i, steps);
            &&& 0 <= b < events.len()
            &&& events[b].payload.seq <= events[i].payload.seq
            &&& events[i].payload.seq - events[b].payload.seq <= steps
            &&& forall|q: int|
                events[b].payload.seq <= q <= events[i].payload.seq ==> #[trigger] has_position(
                    events,
                    q,
                )
            &&& {
                ||| events[b].payload.prev is None
                ||| !has_event(events, events[b].payload.prev->0)
                ||| events[i].payload.seq - events[b].payload.seq == steps
            }
        }),
    decreases steps,
{
    match events[i].payload.prev {
        Some(p) => {
            if steps > 0 && has_event(events, p) {
                let y = event_index(events, p);
                assert(event_cid(events[y]) == p);
                run_goes_down(events, y, (steps - 1) as nat);
                let b = run_bottom(events, y, (steps - 1) as nat);
                assert(events[i].payload.seq == events[y].payload.seq + 1);
                assert(run_bottom(events, i, steps) == b);
            }
        },
        None => {},
    }
}

/// The run that hangs together from an event goes down without a gap in its positions to an
/// event that begins the chain or whose predecessor is not there.
pub proof fn run_reaches_the_gap(s: StoreModel, head: int)
    requires
        links_are_sound(s.events),
        0 <= head < s.events.len(),
    ensures
        ({
            let b = run_bottom_from(s, head);
            &&& 0 <= b < s.events.len()
            &&& s.events[b].payload.seq <= s.events[head].payload.seq
            &&& forall|q: int|
                s.events[b].payload.seq <= q <= s.events[head].payload.seq
                    ==> #[trigger] has_position(s.events, q)
            &&& s.events[b].payload.prev matches Some(p) ==> forall|k: int|
                0 <= k < s.events.len() ==> event_cid(#[trigger] s.events[k]) != p
        }),
{
    let n = s.events.len();
    run_goes_down(s.events, head, n);
    let b = run_bottom_from(s, head);
    if s.events[head].payload.seq - s.events[b].payload.seq == n {
        positions_fit(
            s.events,
            s.events[b].payload.seq as int,
            s.events[head].payload.seq as int + 1,
        );
    }
}

/// An event whose predecessor is there hangs together with it: both runs end at the same event.
pub proof fn run_goes_through_predecessor(s: StoreModel, x: int, y: int)
    requires
        store_consistent(s),
        links_are_sound(s.events),
        0 <= x < s.events.len(),
        0 <= y < s.events.len(),
        s.events[x].payload.prev == Some(event_cid(s.events[y])),
    ensures
        s.events[run_bottom_from(s, x)].payload.seq <= s.events[y].payload.seq,
{
    let n = s.events.len();
    let p = event_cid(s.events[y]);
    assert(has_event(s.events, p));
    let i = event_index(s.events, p);
    assert(event_cid(s.events[i]) == p);
    if i < y {
        assert(event_cid(s.events[i]) != event_cid(s.events[y]));
    } else if y < i {
        assert(event_cid(s.events[y]) != event_cid(s.events[i]));
    }
    run_goes_down(s.events, y, (n - 1) as nat);
}

// ---------------------------------------------------------------------------
// Profiles and names
// ---------------------------------------------------------------------------

/// An account shows the name, the text and the time of the profile event with the highest
/// position that its author signed, in whatever order they came.
pub proof fn account_shows_highest_profile(s: StoreModel, author: Seq<u8>, i: int)
    requires
        store_consistent(s),
        0 <= i < s.events.len(),
        s.events[i].payload.author == author,
        s.events[i].payload.kind is Profile,
    ensures
        s.accounts.dom().contains(hex_text(author)),
        ({
            let a = s.accounts[hex_text(author)];
            exists|j: int|
                0 <= j < s.events.len() && {
                    let e = #[trigger] s.events[j];
                    &&& e.payload.author == author
                    &&& e.payload.kind matches KindModel::Profile { bio, display_name, .. }
                        && a.bio == bio && a.display_name == display_name
                    &&& a.last_seen == e.payload.timestamp
                    &&& forall|m: int|
                        0 <= m < s.events.len() && (#[trigger] s.events[m]).payload.author == author
                            && s.events[m].payload.kind is Profile ==> s.events[m].payload.seq
                            <= e.payload.seq
                }
        }),
{
    latest_profile_is_newest(s.events, author);
    let p = latest_profile(s.events, author);
    assert(is_profile_of(s.events[i], author));
    assert(p is Some);
    assert(account_at(s.accounts, hex_text(author)) == s.accounts[hex_text(author)]);
    let j = choose|j: int|
        0 <= j < s.events.len() && p == Some(#[trigger] s.events[j])
            && is_profile_of(s.events[j], author);
    assert forall|m: int|
        0 <= m < s.events.len() && (#[trigger] s.events[m]).payload.author == author
            && s.events[m].payload.kind is Profile implies s.events[m].payload.seq
        <= s.events[j].payload.seq by {
        assert(is_profile_of(s.events[m], author));
    }
}

/// An account without a profile event shows no name and no text from one.
pub proof fn account_without_profile_shows_none(s: StoreModel, author: Seq<u8>)
    requires
        store_consistent(s),
        s.accounts.dom().contains(hex_text(author)),
        forall|i: int|
            0 <= i < s.events.len() && (#[trigger] s.events[i]).payload.author == author ==> !(
            s.events[i].payload.kind is Profile),
    ensures
        s.accounts[hex_text(author)].display_name.len() == 0,
        s.accounts[hex_text(author)].bio.len() == 0,
        s.accounts[hex_text(author)].last_seen == 0,
{
    latest_profile_is_newest(s.events, author);
    let p = latest_profile(s.events, author);
    if p is Some {
        let j = choose|j: int|
            0 <= j < s.events.len() && p == Some(#[trigger] s.events[j])
                && is_profile_of(s.events[j], author);
        assert(false);
    }
}

/// The name under which an account is shown: that of its profile if it has one, else that of
/// its head record if it has one, else none.
pub proof fn name_comes_from_profile_first(s: StoreModel, key: Seq<char>)
    ensures
        !s.accounts.dom().contains(key) ==> shown_name_at(s.accounts, key) is None,
        s.accounts.dom().contains(key) ==> {
            let a = s.accounts[key];
            &&& a.display_name.len() > 0 ==> shown_name_at(s.accounts, key) == Some(a.display_name)
            &&& a.display_name.len() == 0 && a.snapshot_display_name.len() > 0 ==> shown_name_at(
                s.accounts,
                key,
            ) == Some(a.snapshot_display_name)
            &&& a.display_name.len() == 0 && a.snapshot_display_name.len() == 0 ==> shown_name_at(
                s.accounts,
                key,
            ) is None
        },
{
}

/// The name in a head record is noted unless one with the same or a higher sequence was noted
/// before. Nothing else of the account changes, and no other account.
pub proof fn record_name_follows_sequence(
    s: StoreModel,
    key: Seq<char>,
    sequence: u64,
    name: Seq<char>,
)
    ensures
        ({
            let after = with_snapshot_name(s, key, sequence, name);
            let older = s.accounts.dom().contains(key) && (s.accounts[key].snapshot_seq matches Some(
                n,
            ) && n >= sequence);
            &&& older ==> after == s
            &&& !older ==> {
                &&& after.accounts.dom() == s.accounts.dom().insert(key)
                &&& after.accounts[key].snapshot_display_name == name
                &&& after.accounts[key].snapshot_seq == Some(sequence)
                &&& s.accounts.dom().contains(key) ==> {
                    &&& after.accounts[key].display_name == s.accounts[key].display_name
                    &&& after.accounts[key].bio == s.accounts[key].bio
                    &&& after.accounts[key].last_seen == s.accounts[key].last_seen
                    &&& after.accounts[key].latest_head_cid == s.accounts[key].latest_head_cid
                }
                &&& forall|k: Seq<char>|
                    k != key && s.accounts.dom().contains(k) ==> #[trigger] after.accounts[k]
                        == s.accounts[k]
            }
            &&& after.events == s.events
            &&& after.posts == s.posts
            &&& after.heads == s.heads
            &&& after.sync == s.sync
            &&& after.forks == s.forks
            &&& after.follows == s.follows
        }),
{
    assert(with_snapshot_name(s, key, sequence, name).accounts.dom() =~= s.accounts.dom().insert(key)
        || with_snapshot_name(s, key, sequence, name) == s);
}

/// Noting the newest event of an account changes that and nothing else.
pub proof fn head_cid_is_noted(s: StoreModel, key: Seq<char>, cid: Seq<char>)
    ensures
        ({
            let after = with_head_cid(s, key, cid);
            &&& after.accounts.dom() == s.accounts.dom().insert(key)
            &&& after.accounts[key].latest_head_cid == Some(cid)
            &&& s.accounts.dom().contains(key) ==> {
                &&& after.accounts[key].display_name == s.accounts[key].display_name
                &&& after.accounts[key].bio == s.accounts[key].bio
                &&& after.accounts[key].last_seen == s.accounts[key].last_seen
                &&& after.accounts[key].profile_seq == s.accounts[key].profile_seq
                &&& after.accounts[key].snapshot_display_name
                    == s.accounts[key].snapshot_display_name
                &&& after.accounts[key].snapshot_seq == s.accounts[key].snapshot_seq
            }
            &&& forall|k: Seq<char>|
                k != key && s.accounts.dom().contains(k) ==> #[trigger] after.accounts[k]
                    == s.accounts[k]
            &&& after.events == s.events
            &&& after.posts == s.posts
            &&& after.heads == s.heads
            &&& after.sync == s.sync
            &&& after.forks == s.forks
            &&& after.follows == s.follows
        }),
{
    assert(with_head_cid(s, key, cid).accounts.dom() =~= s.accounts.dom().insert(key));
}

// ---------------------------------------------------------------------------
// Head records
// ---------------------------------------------------------------------------

/// A head record is kept, whole, unless the one that is kept has a higher sequence, or the same
/// sequence and the same or a later validity. Other accounts keep theirs.
pub proof fn newest_record_is_kept(s: StoreModel, r: RecordModel, now: i64)
    ensures
        ({
            let key = hex_text(r.payload.name);
            let after = with_record(s, r, now);
            let beaten = s.heads.dom().contains(key) && (s.heads[key].sequence > r.payload.sequence
                || (s.heads[key].sequence == r.payload.sequence && s.heads[key].validity
                >= r.payload.validity));
            &&& beaten ==> after.heads == s.heads
            &&& !beaten ==> {
                &&& after.heads.dom() == s.heads.dom().insert(key)
                &&& after.heads[key].sequence == r.payload.sequence
                &&& after.heads[key].validity == r.payload.validity
                &&& after.heads[key].record_bytes == record_block(r)
                &&& after.heads[key].updated_at == now
            }
            &&& forall|k: Seq<char>|
                k != key && s.heads.dom().contains(k) ==> #[trigger] after.heads[k] == s.heads[k]
            &&& after.events == s.events
            &&& after.posts == s.posts
            &&& after.accounts == s.accounts
            &&& after.sync == s.sync
            &&& after.follows == s.follows
        }),
{
    let key = hex_text(r.payload.name);
    let after = with_record(s, r, now);
    assert(after.heads.dom() =~= s.heads.dom().insert(key) || after.heads == s.heads);
}

/// A head record that points at another head than the one that is kept, under the same
/// sequence, is a fork: it is known afterwards with both heads, and if it is new, with both
/// records as evidence.
pub proof fn second_head_for_a_sequence_is_a_fork(s: StoreModel, r: RecordModel, known: RecordModel, now: i64)
    requires
        s.heads.dom().contains(hex_text(r.payload.name)),
        record_of_bytes(s.heads[hex_text(r.payload.name)].record_bytes) == Ok::<
            RecordModel,
            Seq<char>,
        >(known),
        known.payload.sequence == r.payload.sequence,
        known.payload.value != r.payload.value,
    ensures
        ({
            let key = hex_text(r.payload.name);
            let forks = with_record(s, r, now).forks;
            exists|j: int|
                0 <= j < forks.len() && {
                    let f = #[trigger] forks[j];
                    &&& f.author == key
                    &&& f.layer == ForkLayer::Head
                    &&& f.seq == r.payload.sequence
                    &&& (f.cid_a == cid_text(known.payload.value) && f.cid_b == cid_text(
                        r.payload.value,
                    )) || (f.cid_a == cid_text(r.payload.value) && f.cid_b == cid_text(
                        known.payload.value,
                    ))
                    &&& j >= s.forks.len() ==> {
                        &&& f.observed_at == now
                        &&& f.cid_a == cid_text(r.payload.value) ==> f.evidence_a == record_block(r)
                            || cid_text(r.payload.value) == cid_text(known.payload.value)
                        &&& f.cid_b == cid_text(r.payload.value) ==> f.evidence_b == record_block(r)
                            || cid_text(r.payload.value) == cid_text(known.payload.value)
                        &&& f.cid_a == cid_text(known.payload.value) ==> f.evidence_a
                            == s.heads[key].record_bytes || cid_text(r.payload.value) == cid_text(
                            known.payload.value,
                        )
                        &&& f.cid_b == cid_text(known.payload.value) ==> f.evidence_b
                            == s.heads[key].record_bytes || cid_text(r.payload.value) == cid_text(
                            known.payload.value,
                        )
                    }
                }
        }),
{
    let forks = with_record(s, r, now).forks;
    let f = head_fork(s, r, now)->Some_0;
    if fork_known(s.forks, f) {
        let j = choose|j: int|
            0 <= j < s.forks.len() && same_fork(#[trigger] s.forks[j], f);
        assert(forks[j] == s.forks[j]);
    } else {
        assert(forks[s.forks.len() as int] == f);
    }
}

/// A head record that agrees with the one that is kept in its head, or has another sequence, is
/// no fork.
pub proof fn agreeing_records_are_no_fork(s: StoreModel, r: RecordModel, now: i64)
    requires
        s.heads.dom().contains(hex_text(r.payload.name)) ==> (record_of_bytes(
            s.heads[hex_text(r.payload.name)].record_bytes,
        ) matches Ok(known) ==> known.payload.sequence != r.payload.sequence
            || known.payload.value == r.payload.value),
    ensures
        with_record(s, r, now).forks == s.forks,
{
}

// ---------------------------------------------------------------------------
// Follows
// ---------------------------------------------------------------------------

/// Following an account adds it with its time, behind the others; following it again changes
/// nothing, not even the time.
pub proof fn follow_is_noted_once(s: StoreModel, key: Seq<char>, since: i64)
    ensures
        (exists|i: int| 0 <= i < s.follows.len() && (#[trigger] s.follows[i]).0 == key)
            ==> with_follow(s, key, since) == s,
        (forall|i: int| 0 <= i < s.follows.len() ==> (#[trigger] s.follows[i]).0 != key)
            ==> with_follow(s, key, since) == (StoreModel {
            follows: s.follows.push((key, since)),
            ..s
        }),
{
}

/// Unfollowing an account takes out that account and nothing else; the others keep their times
/// and their order.
pub proof fn unfollow_takes_out_one(s: StoreModel, key: Seq<char>)
    ensures
        exists|order: Seq<int>|
            {
                let after = without_follow(s, key).follows;
                &&& #[trigger] lists_places(order, s.follows.len())
                &&& order.len() == after.len()
                &&& forall|a: int|
                    0 <= a < order.len() ==> after[a] == s.follows[#[trigger] order[a]] && after[a].0
                        != key
                &&& forall|a: int, b: int|
                    0 <= a < b < order.len() ==> #[trigger] order[a] < #[trigger] order[b]
                &&& forall|i: int|
                    0 <= i < s.follows.len() && (#[trigger] s.follows[i]).0 != key
                        ==> order.contains(i)
            },
        without_follow(s, key).events == s.events,
        without_follow(s, key).posts == s.posts,
        without_follow(s, key).accounts == s.accounts,
        without_follow(s, key).heads == s.heads,
        without_follow(s, key).sync == s.sync,
        without_follow(s, key).forks == s.forks,
{
    let pred = other_than(key);
    let order = kept_places(s.follows, pred);
    filter_keeps_places(s.follows, pred);
    assert forall|i: int|
        0 <= i < s.follows.len() && (#[trigger] s.follows[i]).0 != key implies order.contains(i) by {
        assert(pred(s.follows[i]));
    }
    assert(lists_places(order, s.follows.len()));
}

/// A profile that comes in is shown whole from now on, unless the profile that is shown has the
/// same or a higher position. The name from the head record and the newest event stay noted, and
/// so does all that is known of others; and no event of another kind changes an account.
pub proof fn profile_event_is_shown(s: StoreModel, e: EnvelopeModel, other: Seq<char>, now: i64)
    requires
        forall|i: int|
            0 <= i < s.events.len() ==> event_cid(#[trigger] s.events[i]) != event_cid(e),
    ensures
        ({
            let key = hex_text(e.payload.author);
            let after = with_event(s, e, now).accounts;
            let beaten = s.accounts.dom().contains(key) && (s.accounts[key].profile_seq matches Some(
                n,
            ) && n >= e.payload.seq);
            &&& !(e.payload.kind is Profile) || beaten ==> after == s.accounts
            &&& !beaten ==> (e.payload.kind matches KindModel::Profile { bio, display_name, .. } ==> {
                &&& after.dom().contains(key)
                &&& after[key].display_name == display_name
                &&& after[key].bio == bio
                &&& after[key].profile_seq == Some(e.payload.seq)
                &&& after[key].last_seen == e.payload.timestamp
                &&& s.accounts.dom().contains(key) ==> after[key].latest_head_cid
                    == s.accounts[key].latest_head_cid && after[key].snapshot_display_name
                    == s.accounts[key].snapshot_display_name && after[key].snapshot_seq
                    == s.accounts[key].snapshot_seq
                &&& !s.accounts.dom().contains(key) ==> after[key].latest_head_cid is None
                    && after[key].snapshot_display_name.len() == 0
                    && after[key].snapshot_seq is None
            })
            &&& other != key ==> (after.dom().contains(other) <==> s.accounts.dom().contains(other))
                && (s.accounts.dom().contains(other) ==> after[other] == s.accounts[other])
        }),
{
}

/// A store that was just opened holds nothing.
pub proof fn new_store_holds_nothing()
    ensures
        empty_store().events.len() == 0,
        empty_store().posts.len() == 0,
        empty_store().accounts.dom() == Set::<Seq<char>>::empty(),
        empty_store().heads.dom() == Set::<Seq<char>>::empty(),
        empty_store().sync.dom() == Set::<Seq<char>>::empty(),
        empty_store().forks.len() == 0,
        empty_store().follows.len() == 0,
{
}

// ---------------------------------------------------------------------------
// Rows
// ---------------------------------------------------------------------------

/// The view of an optional text is that text.
pub proof fn optional_text_is_whole(text: Option<String>)
    ensures
        opt_text(text) is Some <==> text is Some,
        text matches Some(t) ==> opt_text(text) == Some(t@),
{
}

/// A row of posts says what it shows.
pub proof fn post_row_is_what_is_shown(row: PostRow)
    ensures
        row@.cid == row.cid@,
        row@.author == row.author@,
        row@.text == row.text@,
        row@.timestamp == row.timestamp,
        row@.edited == row.edited,
        row@.deleted == row.deleted,
{
}

/// A row of the timeline says what it shows.
pub proof fn timeline_row_is_what_is_shown(row: TimelineRow)
    ensures
        row@.0.cid == row.cid@,
        row@.0.author == row.author@,
        row@.0.text == row.text@,
        row@.0.timestamp == row.timestamp,
        row@.0.edited == row.edited,
        row@.0.deleted == row.deleted,
        row@.1 == opt_text(row.display_name),
{
}

/// A row of follows says what it shows.
pub proof fn follow_row_is_what_is_shown(row: FollowRow)
    ensures
        row@.pubkey == row.pubkey@,
        row@.since == row.since,
        row@.display_name == opt_text(row.display_name),
{
}

/// A row of an account holds its profile, its newest event and its name: that of the profile if
/// it has one, else that of its head record, else none.
pub proof fn account_row_is_whole(row: AccountRow, key: Seq<char>, a: AccountModel)
    requires
        shows_account(row, key, a),
    ensures
        row.pubkey@ == key,
        a.display_name.len() > 0 ==> row.display_name@ == a.display_name,
        a.display_name.len() == 0 ==> row.display_name@ == a.snapshot_display_name,
        row.bio@ == a.bio,
        opt_text(row.latest_head_cid) == a.latest_head_cid,
        row.last_seen == a.last_seen,
{
    if a.display_name.len() == 0 && a.snapshot_display_name.len() == 0 {
        assert(a.snapshot_display_name =~= Seq::<char>::empty());
    }
}

/// A row of a fork holds both CIDs and both pieces of evidence.
pub proof fn fork_row_is_whole(row: ForkRow, f: ForkModel)
    requires
        shows_fork(row, f),
    ensures
        row.author@ == f.author,
        f.layer == ForkLayer::Event ==> row.layer@ == "event"@,
        f.layer == ForkLayer::Head ==> row.layer@ == "head"@,
        row.seq == f.seq,
        row.cid_a@ == f.cid_a,
        row.cid_b@ == f.cid_b,
        row.evidence_a@ == f.evidence_a,
        row.evidence_b@ == f.evidence_b,
        row.observed_at == f.observed_at,
{
}

/// A row of progress holds the floor, the end of the run and whether that reaches the floor.
pub proof fn sync_row_is_whole(row: SyncStateRow, key: Seq<char>, m: SyncModel)
    requires
        shows_sync(row, key, m),
    ensures
        row.pubkey@ == key,
        row.window_floor_seq == m.window_floor_seq,
        opt_text(row.cursor_cid) == m.cursor_cid,
        row.cursor_seq == m.cursor_seq,
        row.completed == m.completed,
{
}

/// A fork that is recorded is there with its author, its layer, its position and its CIDs; it
/// comes last if it is new, and nothing changes if it is not.
pub proof fn fork_is_recorded_if_new(forks: Seq<ForkModel>, f: ForkModel)
    ensures
        (exists|i: int|
            0 <= i < forks.len() && (#[trigger] forks[i]).author == f.author && forks[i].layer
                == f.layer && forks[i].seq == f.seq && forks[i].cid_a == f.cid_a && forks[i].cid_b
                == f.cid_b) ==> add_fork(forks, f) == forks,
        (forall|i: int|
            0 <= i < forks.len() ==> !((#[trigger] forks[i]).author == f.author && forks[i].layer
                == f.layer && forks[i].seq == f.seq && forks[i].cid_a == f.cid_a && forks[i].cid_b
                == f.cid_b)) ==> add_fork(forks, f) == forks.push(f),
{
    if exists|i: int|
        0 <= i < forks.len() && (#[trigger] forks[i]).author == f.author && forks[i].layer
            == f.layer && forks[i].seq == f.seq && forks[i].cid_a == f.cid_a && forks[i].cid_b
            == f.cid_b {
        let i = choose|i: int|
            0 <= i < forks.len() && (#[trigger] forks[i]).author == f.author && forks[i].layer
                == f.layer && forks[i].seq == f.seq && forks[i].cid_a == f.cid_a && forks[i].cid_b
                == f.cid_b;
        assert(same_fork(forks[i], f));
    }
}

/// The saved blocks are taken in up to the first that holds no event: all before it hold one.
pub proof fn saved_blocks_are_read_up_to_a_broken_one(blocks: Seq<Seq<u8>>)
    ensures
        ({
            let n = readable_blocks(blocks);
            &&& 0 <= n <= blocks.len()
            &&& forall|i: int|
                0 <= i < n ==> envelope_of_block(#[trigger] blocks[i]) is Ok
            &&& n < blocks.len() ==> envelope_of_block(blocks[n]) is Err
        }),
    decreases blocks.len(),
{
    if blocks.len() > 0 && envelope_of_block(blocks[0]) is Ok {
        let rest = blocks.skip(1);
        saved_blocks_are_read_up_to_a_broken_one(rest);
        let n = readable_blocks(blocks);
        assert forall|i: int| 0 <= i < n implies envelope_of_block(#[trigger] blocks[i]) is Ok by {
            if i > 0 {
                assert(rest[i - 1] == blocks[i]);
            }
        }
        if n < blocks.len() {
            assert(rest[n - 1] == blocks[n]);
        }
    }
}

/// An edit, a deletion and a reply are about their target; no other event is about a post.
pub proof fn target_is_what_the_event_is_about(kind: KindModel)
    ensures
        kind matches KindModel::Edit { target, .. } ==> target_of(kind) == Some(target),
        kind matches KindModel::Delete { target } ==> target_of(kind) == Some(target),
        kind matches KindModel::Reply { target, .. } ==> target_of(kind) == Some(target),
        kind is Post || kind is Profile || kind is Follow ==> target_of(kind) is None,
{
}

/// A saved row is repaired if and only if it lacks its target, its tag is that of an edit, a
/// deletion or a reply, and the event in it is about a post; the repair then names the event and
/// that post.
pub proof fn repair_names_event_and_target(row: SavedRowModel)
    ensures
        ({
            let tagged = row.kind_tag == "Edit"@ || row.kind_tag == "Delete"@ || row.kind_tag
                == "Reply"@;
            &&& row.target_cid is Some || !tagged ==> repair_of(row) is None
            &&& row.target_cid is None && tagged ==> match envelope_of_block(row.raw_cbor) {
                Ok(e) => match e.payload.kind {
                    KindModel::Edit { target, .. } => repair_of(row) == Some(
                        (cid_text(event_cid(e)), cid_text(target)),
                    ),
                    KindModel::Delete { target } => repair_of(row) == Some(
                        (cid_text(event_cid(e)), cid_text(target)),
                    ),
                    KindModel::Reply { target, .. } => repair_of(row) == Some(
                        (cid_text(event_cid(e)), cid_text(target)),
                    ),
                    _ => repair_of(row) is None,
                },
                Err(_) => repair_of(row) is None && is_broken(row),
            }
        }),
{
}

} // verus!
