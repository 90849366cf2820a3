//! What folding does with each kind of event.

use crate::chain::{chain_fold, chain_step, post_pairs, ChainState, PostModel, ProfileModel};
use crate::dag_cbor::key_views;
use crate::event::{EnvelopeModel, KindModel};
use crate::table::pairs_map_index;
use vstd::prelude::*;

verus! {

/// Events with their CIDs.
pub type Pairs = Seq<(Seq<u8>, EnvelopeModel)>;

proof fn fold_one_more(events: Pairs, cid: Seq<u8>, e: EnvelopeModel)
    ensures
        chain_fold(events.push((cid, e))) == chain_step(chain_fold(events), cid, e),
{
    assert(events.push((cid, e)).drop_last() =~= events);
}

/// Nothing comes of no events.
pub proof fn nothing_folds_to_nothing()
    ensures
        chain_fold(Seq::empty()).posts == Map::<Seq<u8>, PostModel>::empty(),
        chain_fold(Seq::empty()).profile == None::<(u64, ProfileModel)>,
        chain_fold(Seq::empty()).following == Set::<Seq<u8>>::empty(),
{
}

/// A post event makes a post under its CID, with its whole text, its author and its time, and
/// changes nothing else.
pub proof fn fold_makes_post(events: Pairs, cid: Seq<u8>, e: EnvelopeModel, text: Seq<char>)
    requires
        e.payload.kind == (KindModel::Post { text }),
    ensures
        ({
            let before = chain_fold(events);
            let after = chain_fold(events.push((cid, e)));
            &&& after.posts.dom().contains(cid)
            &&& after.posts[cid].cid == cid
            &&& after.posts[cid].author == e.payload.author
            &&& after.posts[cid].text == text
            &&& after.posts[cid].timestamp == e.payload.timestamp
            &&& !after.posts[cid].deleted
            &&& after.posts[cid].latest_edit_seq == e.payload.seq
            &&& forall|c: Seq<u8>|
                c != cid ==> (#[trigger] after.posts.dom().contains(c)
                    <==> before.posts.dom().contains(c))
            &&& forall|c: Seq<u8>|
                c != cid && before.posts.dom().contains(c) ==> #[trigger] after.posts[c]
                    == before.posts[c]
            &&& after.profile == before.profile
            &&& after.following == before.following
        }),
{
    fold_one_more(events, cid, e);
}

/// An edit gives its target the edit's whole text, if the target is a post by the same author
/// and no edit with the same or a higher position came before it. In every other case, and for
/// every other post, nothing changes.
pub proof fn fold_edits_post(
    events: Pairs,
    cid: Seq<u8>,
    e: EnvelopeModel,
    text: Seq<char>,
    target: Seq<u8>,
    c: Seq<u8>,
)
    requires
        e.payload.kind == (KindModel::Edit { text, target }),
    ensures
        ({
            let before = chain_fold(events);
            let after = chain_fold(events.push((cid, e)));
            let counts = c == target && before.posts[c].author == e.payload.author
                && e.payload.seq > before.posts[c].latest_edit_seq;
            &&& after.posts.dom().contains(c) <==> before.posts.dom().contains(c)
            &&& before.posts.dom().contains(c) ==> {
                &&& after.posts[c].text == if counts {
                    text
                } else {
                    before.posts[c].text
                }
                &&& after.posts[c].latest_edit_seq == if counts {
                    e.payload.seq
                } else {
                    before.posts[c].latest_edit_seq
                }
                &&& after.posts[c].cid == before.posts[c].cid
                &&& after.posts[c].author == before.posts[c].author
                &&& after.posts[c].timestamp == before.posts[c].timestamp
                &&& after.posts[c].deleted == before.posts[c].deleted
            }
            &&& after.profile == before.profile
            &&& after.following == before.following
        }),
{
    fold_one_more(events, cid, e);
}

/// A deletion marks its target as deleted if that is a post by the same author, whenever it was
/// signed. In every other case, and for every other post, nothing changes.
pub proof fn fold_deletes_post(
    events: Pairs,
    cid: Seq<u8>,
    e: EnvelopeModel,
    target: Seq<u8>,
    c: Seq<u8>,
)
    requires
        e.payload.kind == (KindModel::Delete { target }),
    ensures
        ({
            let before = chain_fold(events);
            let after = chain_fold(events.push((cid, e)));
            &&& after.posts.dom().contains(c) <==> before.posts.dom().contains(c)
            &&& before.posts.dom().contains(c) ==> {
                &&& after.posts[c].deleted == (before.posts[c].deleted || (c == target
                    && before.posts[c].author == e.payload.author))
                &&& after.posts[c].cid == before.posts[c].cid
                &&& after.posts[c].author == before.posts[c].author
                &&& after.posts[c].text == before.posts[c].text
                &&& after.posts[c].timestamp == before.posts[c].timestamp
                &&& after.posts[c].latest_edit_seq == before.posts[c].latest_edit_seq
            }
            &&& after.profile == before.profile
            &&& after.following == before.following
        }),
{
    fold_one_more(events, cid, e);
}

/// A profile event with a position above that of the profile before it takes its place, with
/// its name, its text and its picture; one with a lower position changes nothing.
pub proof fn fold_takes_profile(
    events: Pairs,
    cid: Seq<u8>,
    e: EnvelopeModel,
    bio: Seq<char>,
    avatar_cid: Option<Seq<u8>>,
    display_name: Seq<char>,
)
    requires
        e.payload.kind == (KindModel::Profile { bio, avatar_cid, display_name }),
    ensures
        ({
            let before = chain_fold(events);
            let after = chain_fold(events.push((cid, e)));
            &&& after.profile is Some
            &&& if before.profile matches Some(p) && p.0 >= e.payload.seq {
                after.profile == before.profile
            } else {
                &&& after.profile matches Some((seq, profile))
                &&& seq == e.payload.seq
                &&& profile.bio == bio
                &&& profile.avatar_cid == avatar_cid
                &&& profile.display_name == display_name
            }
            &&& after.posts == before.posts
            &&& after.following == before.following
        }),
{
    fold_one_more(events, cid, e);
}

/// After a follow event no key of its `removed` list is followed, every other key of its
/// `added` list is, and every key in neither list is followed if and only if it was before.
pub proof fn fold_follows_exactly(
    events: Pairs,
    cid: Seq<u8>,
    e: EnvelopeModel,
    added: Seq<Seq<u8>>,
    removed: Seq<Seq<u8>>,
    key: Seq<u8>,
)
    requires
        e.payload.kind == (KindModel::Follow { added, removed }),
    ensures
        ({
            let before = chain_fold(events);
            let after = chain_fold(events.push((cid, e)));
            &&& removed.contains(key) ==> !after.following.contains(key)
            &&& added.contains(key) && !removed.contains(key) ==> after.following.contains(key)
            &&& !added.contains(key) && !removed.contains(key) ==> (after.following.contains(key)
                <==> before.following.contains(key))
            &&& after.posts == before.posts
            &&& after.profile == before.profile
        }),
{
    fold_one_more(events, cid, e);
    assert(added.to_set().contains(key) <==> added.contains(key));
    assert(removed.to_set().contains(key) <==> removed.contains(key));
}

/// A reply changes nothing.
pub proof fn fold_passes_over_replies(
    events: Pairs,
    cid: Seq<u8>,
    e: EnvelopeModel,
    text: Seq<char>,
    target: Seq<u8>,
)
    requires
        e.payload.kind == (KindModel::Reply { text, target }),
    ensures
        chain_fold(events.push((cid, e))) == chain_fold(events),
{
    fold_one_more(events, cid, e);
}

/// Who is followed in the end: the accounts that some follow event added and neither that one
/// nor a later one removed.
pub proof fn followed_are_those_added_last(events: Pairs, key: Seq<u8>)
    ensures
        chain_fold(events).following.contains(key) <==> exists|i: int|
            0 <= i < events.len() && ((#[trigger] events[i]).1.payload.kind matches
                KindModel::Follow { added, removed } && added.contains(key)) && forall|j: int|
                i <= j < events.len() ==> ((#[trigger] events[j]).1.payload.kind matches
                    KindModel::Follow { added, removed } ==> !removed.contains(key)),
    decreases events.len(),
{
    if events.len() > 0 {
        let init = events.drop_last();
        let (cid, e) = events.last();
        let n = events.len() - 1;
        followed_are_those_added_last(init, key);
        assert(events =~= init.push((cid, e)));
        assert(events[n] == (cid, e));
        assert forall|i: int| 0 <= i < n implies #[trigger] init[i] == events[i] by {}
        match e.payload.kind {
            KindModel::Follow { added, removed } => {
                fold_follows_exactly(init, cid, e, added, removed, key);
            },
            KindModel::Post { text } => {
                fold_makes_post(init, cid, e, text);
            },
            KindModel::Edit { text, target } => {
                fold_edits_post(init, cid, e, text, target, key);
            },
            KindModel::Delete { target } => {
                fold_deletes_post(init, cid, e, target, key);
            },
            KindModel::Profile { bio, avatar_cid, display_name } => {
                fold_takes_profile(init, cid, e, bio, avatar_cid, display_name);
            },
            KindModel::Reply { text, target } => {
                fold_passes_over_replies(init, cid, e, text, target);
            },
        }
        if chain_fold(init).following.contains(key) {
            let i = choose|i: int|
                0 <= i < init.len() && ((#[trigger] init[i]).1.payload.kind matches
                    KindModel::Follow { added, removed } && added.contains(key)) && forall|j: int|
                    i <= j < init.len() ==> ((#[trigger] init[j]).1.payload.kind matches
                        KindModel::Follow { added, removed } ==> !removed.contains(key));
            assert(events[i] == init[i]);
            if chain_fold(events).following.contains(key) {
                assert forall|j: int| i <= j < events.len() implies ((
                #[trigger] events[j]).1.payload.kind matches KindModel::Follow { added, removed }
                    ==> !removed.contains(key)) by {
                    if j < n {
                        assert(init[j] == events[j]);
                    }
                }
            }
        } else {
            assert forall|i: int|
                0 <= i < n && ((#[trigger] events[i]).1.payload.kind matches KindModel::Follow {
                    added,
                    removed,
                } && added.contains(key)) implies exists|j: int|
                i <= j < events.len() && ((#[trigger] events[j]).1.payload.kind matches
                    KindModel::Follow { added, removed } && removed.contains(key)) by {
                assert(init[i] == events[i]);
                let j = choose|j: int|
                    i <= j < init.len() && !((#[trigger] init[j]).1.payload.kind matches
                        KindModel::Follow { added, removed } ==> !removed.contains(key));
                assert(events[j] == init[j]);
            }
        }
    }
}

/// What is said of a state is said of all that it holds: its posts by their CIDs, its profile,
/// and the accounts followed.
pub proof fn state_is_seen_whole(state: ChainState, i: int)
    requires
        state.wf(),
        0 <= i < state.posts@.len(),
    ensures
        ({
            let post = state.posts@[i];
            &&& state@.posts.dom().contains(post.cid@)
            &&& state@.posts[post.cid@].author == post.author@
            &&& state@.posts[post.cid@].text == post.text@
            &&& state@.posts[post.cid@].timestamp == post.timestamp
            &&& state@.posts[post.cid@].deleted == post.deleted
            &&& state@.posts[post.cid@].latest_edit_seq == post.latest_edit_seq
        }),
        state.profile matches Some(p) ==> (state@.profile matches Some((seq, profile)) && seq == p.0
            && profile.display_name == p.1.display_name@ && profile.bio == p.1.bio@),
        state.profile is None ==> state@.profile is None,
        forall|k: Seq<u8>| #[trigger]
            state@.following.contains(k) <==> exists|j: int|
                0 <= j < state.following@.len() && #[trigger] state.following@[j]@ == k,
{
    pairs_map_index(post_pairs(state.posts@), i);
    let keys = key_views(state.following@);
    assert forall|k: Seq<u8>| #[trigger] state@.following.contains(k) <==> exists|j: int|
        0 <= j < state.following@.len() && #[trigger] state.following@[j]@ == k by {
        if state@.following.contains(k) {
            let j = choose|j: int| 0 <= j < keys.len() && keys[j] == k;
            assert(state.following@[j]@ == k);
        }
        if exists|j: int| 0 <= j < state.following@.len() && #[trigger] state.following@[j]@ == k {
            let j = choose|j: int|
                0 <= j < state.following@.len() && #[trigger] state.following@[j]@ == k;
            assert(keys[j] == k);
        }
    }
}

} // verus!
