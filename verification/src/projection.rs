//! What the stored events of all authors describe: the posts, the profiles, and the newest
//! events. Everything here is a function of the events in the order of their arrival.

use crate::chain::{chain_fold, chain_step, PostModel};
use crate::event::{event_cid, EnvelopeModel, KindModel};
use vstd::prelude::*;

verus! {

// ---------------------------------------------------------------------------
// Posts
// ---------------------------------------------------------------------------

/// A post as the events left it.
pub struct PostRowModel {
    pub cid: Seq<u8>,
    pub author: Seq<u8>,
    pub seq: u64,
    pub text: Seq<char>,
    pub timestamp: i64,
    pub edited: bool,
    pub deleted: bool,
    /// The position of the edit that counts, or of the post itself.
    pub latest_edit_seq: u64,
}

/// Whether `x` edits the post `row`.
pub open spec fn edits(x: EnvelopeModel, row: PostRowModel) -> bool {
    x.payload.author == row.author && (x.payload.kind matches KindModel::Edit { target, .. }
        && target == row.cid)
}

/// Whether `x` deletes the post `row`.
pub open spec fn deletes(x: EnvelopeModel, row: PostRowModel) -> bool {
    x.payload.author == row.author && (x.payload.kind matches KindModel::Delete { target }
        && target == row.cid)
}

/// The text of an edit.
pub open spec fn edit_text(x: EnvelopeModel) -> Seq<char> {
    match x.payload.kind {
        KindModel::Edit { text, .. } => text,
        _ => Seq::empty(),
    }
}

/// What one event does to a post: an edit counts if it comes from the author and has a higher
/// position than the edit before it, a deletion if it comes from the author.
pub open spec fn post_step(row: PostRowModel, x: EnvelopeModel) -> PostRowModel {
    if edits(x, row) && x.payload.seq > row.latest_edit_seq {
        PostRowModel {
            text: edit_text(x),
            edited: true,
            latest_edit_seq: x.payload.seq,
            ..row
        }
    } else if deletes(x, row) {
        PostRowModel { deleted: true, ..row }
    } else {
        row
    }
}

/// A post after a list of events.
pub open spec fn post_after(row: PostRowModel, events: Seq<EnvelopeModel>) -> PostRowModel
    decreases events.len(),
{
    if events.len() == 0 {
        row
    } else {
        post_step(post_after(row, events.drop_last()), events.last())
    }
}

/// Whether an event makes a post.
pub open spec fn is_post(e: EnvelopeModel) -> bool {
    e.payload.kind is Post
}

/// The post that an event makes, before any edit.
pub open spec fn new_post(e: EnvelopeModel) -> PostRowModel {
    PostRowModel {
        cid: event_cid(e),
        author: e.payload.author,
        seq: e.payload.seq,
        text: match e.payload.kind {
            KindModel::Post { text } => text,
            _ => Seq::empty(),
        },
        timestamp: e.payload.timestamp,
        edited: false,
        deleted: false,
        latest_edit_seq: e.payload.seq,
    }
}

/// The posts that the events in `makers` make, each as the events in `all` left it.
pub open spec fn posts_made(makers: Seq<EnvelopeModel>, all: Seq<EnvelopeModel>) -> Seq<
    PostRowModel,
>
    decreases makers.len(),
{
    if makers.len() == 0 {
        Seq::empty()
    } else {
        let before = posts_made(makers.drop_last(), all);
        if is_post(makers.last()) {
            before.push(post_after(new_post(makers.last()), all))
        } else {
            before
        }
    }
}

/// The posts of a store: those that its events make, in the order of their arrival, each as
/// all events together left it, whether they came before it or after.
pub open spec fn projection(events: Seq<EnvelopeModel>) -> Seq<PostRowModel> {
    posts_made(events, events)
}

/// The part of a post that no event changes.
pub open spec fn same_post(a: PostRowModel, b: PostRowModel) -> bool {
    a.cid == b.cid && a.author == b.author && a.seq == b.seq && a.timestamp == b.timestamp
}

pub proof fn post_after_same(row: PostRowModel, events: Seq<EnvelopeModel>)
    ensures
        same_post(post_after(row, events), row),
    decreases events.len(),
{
    if events.len() > 0 {
        post_after_same(row, events.drop_last());
    }
}

pub proof fn post_after_push(row: PostRowModel, events: Seq<EnvelopeModel>, x: EnvelopeModel)
    ensures
        post_after(row, events.push(x)) == post_step(post_after(row, events), x),
{
    assert(events.push(x).drop_last() =~= events);
}

pub proof fn posts_made_push_all(
    makers: Seq<EnvelopeModel>,
    all: Seq<EnvelopeModel>,
    x: EnvelopeModel,
)
    ensures
        posts_made(makers, all.push(x)) == posts_made(makers, all).map_values(
            |r: PostRowModel| post_step(r, x),
        ),
    decreases makers.len(),
{
    let step = |r: PostRowModel| post_step(r, x);
    if makers.len() > 0 {
        posts_made_push_all(makers.drop_last(), all, x);
        let before = posts_made(makers.drop_last(), all);
        if is_post(makers.last()) {
            let row = new_post(makers.last());
            post_after_push(row, all, x);
            assert(before.push(post_after(row, all)).map_values(step) =~= before.map_values(
                step,
            ).push(post_step(post_after(row, all), x)));
        }
    } else {
        assert(posts_made(makers, all).map_values(step) =~= Seq::<PostRowModel>::empty());
    }
}

/// What a new event does to the posts of a store: it changes those that it edits or deletes,
/// and the post that it makes comes last, as the events that came before it left it.
pub proof fn projection_push(events: Seq<EnvelopeModel>, x: EnvelopeModel)
    ensures
        projection(events.push(x)) == {
            let changed = projection(events).map_values(|r: PostRowModel| post_step(r, x));
            if is_post(x) {
                changed.push(post_after(new_post(x), events))
            } else {
                changed
            }
        },
{
    let after = events.push(x);
    assert(after.drop_last() =~= events);
    posts_made_push_all(events, events, x);
    if is_post(x) {
        post_after_push(new_post(x), events, x);
        post_after_same(new_post(x), events);
    }
}

// ---------------------------------------------------------------------------
// Laws of the projection
// ---------------------------------------------------------------------------

/// Whether event `i` is the edit that counts for a post: it edits the post with a position
/// above the post's own, no edit has a higher position, and none before it has the same.
pub open spec fn is_winning_edit(
    row: PostRowModel,
    events: Seq<EnvelopeModel>,
    i: int,
) -> bool {
    &&& 0 <= i < events.len()
    &&& edits(events[i], row)
    &&& events[i].payload.seq > row.latest_edit_seq
    &&& forall|j: int|
        0 <= j < events.len() && edits(#[trigger] events[j], row) ==> events[j].payload.seq
            <= events[i].payload.seq
    &&& forall|j: int|
        0 <= j < i && edits(#[trigger] events[j], row) ==> events[j].payload.seq
            < events[i].payload.seq
}

/// Last write wins: a post has the text of the edit with the highest position above its own,
/// the first to arrive among equals; without such an edit it keeps its text. It is deleted if
/// and only if its author deleted it.
pub proof fn last_write_wins(row: PostRowModel, events: Seq<EnvelopeModel>)
    ensures
        ({
            let r = post_after(row, events);
            &&& same_post(r, row)
            &&& r.deleted <==> row.deleted || exists|i: int|
                0 <= i < events.len() && deletes(#[trigger] events[i], row)
            &&& (exists|i: int| is_winning_edit(row, events, i) && r.text == edit_text(events[i])
                && r.latest_edit_seq == events[i].payload.seq && r.edited) || {
                &&& forall|i: int|
                    0 <= i < events.len() && edits(#[trigger] events[i], row)
                        ==> events[i].payload.seq <= row.latest_edit_seq
                &&& r.text == row.text
                &&& r.latest_edit_seq == row.latest_edit_seq
                &&& r.edited == row.edited
            }
        }),
    decreases events.len(),
{
    if events.len() > 0 {
        let init = events.drop_last();
        let x = events.last();
        let n = events.len() - 1;
        last_write_wins(row, init);
        let before = post_after(row, init);
        let r = post_after(row, events);
        assert(edits(x, before) == edits(x, row) && deletes(x, before) == deletes(x, row));
        assert(r.deleted <==> row.deleted || exists|i: int|
            0 <= i < events.len() && deletes(#[trigger] events[i], row)) by {
            if before.deleted && !row.deleted {
                let i = choose|i: int| 0 <= i < init.len() && deletes(#[trigger] init[i], row);
                assert(deletes(events[i], row));
            }
            if exists|i: int| 0 <= i < events.len() && deletes(#[trigger] events[i], row) {
                let i = choose|i: int| 0 <= i < events.len() && deletes(#[trigger] events[i], row);
                if i < n {
                    assert(deletes(init[i], row));
                }
            }
            if deletes(x, row) {
                assert(deletes(events[n], row));
            }
        }
        if exists|i: int| is_winning_edit(row, init, i) && before.text == edit_text(init[i])
            && before.latest_edit_seq == init[i].payload.seq && before.edited {
            let w = choose|i: int|
                is_winning_edit(row, init, i) && before.text == edit_text(init[i])
                    && before.latest_edit_seq == init[i].payload.seq && before.edited;
            if edits(x, row) && x.payload.seq > before.latest_edit_seq {
                assert forall|j: int|
                    0 <= j < events.len() && edits(#[trigger] events[j], row) implies events[j].payload.seq
                    <= x.payload.seq && (j < n ==> events[j].payload.seq < x.payload.seq) by {
                    if j < n {
                        assert(init[j] == events[j]);
                    }
                }
                assert(is_winning_edit(row, events, n));
            } else {
                assert(events[w] == init[w]);
                assert forall|j: int|
                    0 <= j < events.len() && edits(#[trigger] events[j], row) implies events[j].payload.seq
                    <= events[w].payload.seq && (j < w ==> events[j].payload.seq
                    < events[w].payload.seq) by {
                    if j < n {
                        assert(init[j] == events[j]);
                    }
                }
                assert(is_winning_edit(row, events, w));
            }
        } else {
            if edits(x, row) && x.payload.seq > before.latest_edit_seq {
                assert forall|j: int|
                    0 <= j < events.len() && edits(#[trigger] events[j], row) implies events[j].payload.seq
                    <= x.payload.seq && (j < n ==> events[j].payload.seq < x.payload.seq) by {
                    if j < n {
                        assert(init[j] == events[j]);
                    }
                }
                assert(is_winning_edit(row, events, n));
            } else {
                assert forall|i: int|
                    0 <= i < events.len() && edits(#[trigger] events[i], row) implies events[i].payload.seq
                    <= row.latest_edit_seq by {
                    if i < n {
                        assert(init[i] == events[i]);
                    }
                }
            }
        }
    }
}

/// Whether no two edits of one post in `events` have the same position and different texts.
pub open spec fn edits_agree(row: PostRowModel, events: Seq<EnvelopeModel>) -> bool {
    forall|i: int, j: int|
        0 <= i < events.len() && 0 <= j < events.len() && edits(#[trigger] events[i], row)
            && edits(#[trigger] events[j], row) && events[i].payload.seq == events[j].payload.seq
            ==> edit_text(events[i]) == edit_text(events[j])
}

/// The order of arrival does not matter: two stores with the same events show a post in the
/// same state, unless its author signed two different edits under one position.
pub proof fn arrival_order_is_irrelevant(
    row: PostRowModel,
    a: Seq<EnvelopeModel>,
    b: Seq<EnvelopeModel>,
)
    requires
        forall|e: EnvelopeModel| a.contains(e) <==> b.contains(e),
        edits_agree(row, a),
    ensures
        post_after(row, a) == post_after(row, b),
{
    last_write_wins(row, a);
    last_write_wins(row, b);
    let ra = post_after(row, a);
    let rb = post_after(row, b);
    assert forall|i: int| 0 <= i < a.len() implies b.contains(#[trigger] a[i]) by {
        assert(a.contains(a[i]));
    }
    assert forall|i: int| 0 <= i < b.len() implies a.contains(#[trigger] b[i]) by {
        assert(b.contains(b[i]));
    }
    assert(ra.deleted == rb.deleted) by {
        if exists|i: int| 0 <= i < a.len() && deletes(#[trigger] a[i], row) {
            let i = choose|i: int| 0 <= i < a.len() && deletes(#[trigger] a[i], row);
            let j = choose|j: int| 0 <= j < b.len() && b[j] == a[i];
            assert(deletes(b[j], row));
        }
        if exists|i: int| 0 <= i < b.len() && deletes(#[trigger] b[i], row) {
            let i = choose|i: int| 0 <= i < b.len() && deletes(#[trigger] b[i], row);
            let j = choose|j: int| 0 <= j < a.len() && a[j] == b[i];
            assert(deletes(a[j], row));
        }
    }
    let wins_a = exists|i: int| is_winning_edit(row, a, i) && ra.text == edit_text(a[i])
        && ra.latest_edit_seq == a[i].payload.seq && ra.edited;
    let wins_b = exists|i: int| is_winning_edit(row, b, i) && rb.text == edit_text(b[i])
        && rb.latest_edit_seq == b[i].payload.seq && rb.edited;
    if wins_a {
        let i = choose|i: int| is_winning_edit(row, a, i) && ra.text == edit_text(a[i])
            && ra.latest_edit_seq == a[i].payload.seq && ra.edited;
        let j = choose|j: int| 0 <= j < b.len() && b[j] == a[i];
        assert(edits(b[j], row));
        assert(wins_b);
        let k = choose|i: int| is_winning_edit(row, b, i) && rb.text == edit_text(b[i])
            && rb.latest_edit_seq == b[i].payload.seq && rb.edited;
        let m = choose|m: int| 0 <= m < a.len() && a[m] == b[k];
        assert(edits(a[m], row));
        assert(a[m].payload.seq == a[i].payload.seq);
    } else if wins_b {
        let k = choose|i: int| is_winning_edit(row, b, i) && rb.text == edit_text(b[i])
            && rb.latest_edit_seq == b[i].payload.seq && rb.edited;
        let m = choose|m: int| 0 <= m < a.len() && a[m] == b[k];
        assert(edits(a[m], row));
    }
}

/// Events of other authors leave a post alone.
pub proof fn other_authors_are_ignored(row: PostRowModel, x: EnvelopeModel)
    requires
        x.payload.author != row.author,
    ensures
        post_step(row, x) == row,
{
}

// ---------------------------------------------------------------------------
// Profiles
// ---------------------------------------------------------------------------

/// Whether an event is a profile of `author`.
pub open spec fn is_profile_of(e: EnvelopeModel, author: Seq<u8>) -> bool {
    e.payload.author == author && e.payload.kind is Profile
}

/// The profile event of `author` with the highest position; the first to arrive among equals.
pub open spec fn latest_profile(events: Seq<EnvelopeModel>, author: Seq<u8>) -> Option<
    EnvelopeModel,
>
    decreases events.len(),
{
    if events.len() == 0 {
        None
    } else {
        let before = latest_profile(events.drop_last(), author);
        let x = events.last();
        if is_profile_of(x, author) && (before is None || x.payload.seq
            > before->Some_0.payload.seq) {
            Some(x)
        } else {
            before
        }
    }
}

/// What a new event does to the newest profile of an author.
pub proof fn latest_profile_push(events: Seq<EnvelopeModel>, x: EnvelopeModel, author: Seq<u8>)
    ensures
        latest_profile(events.push(x), author) == {
            let before = latest_profile(events, author);
            if is_profile_of(x, author) && (before is None || x.payload.seq
                > before->Some_0.payload.seq) {
                Some(x)
            } else {
                before
            }
        },
{
    assert(events.push(x).drop_last() =~= events);
}

/// The newest profile of an author is among the events, and no profile of the author has a
/// higher position.
pub proof fn latest_profile_is_newest(events: Seq<EnvelopeModel>, author: Seq<u8>)
    ensures
        match latest_profile(events, author) {
            Some(p) => {
                &&& events.contains(p)
                &&& is_profile_of(p, author)
                &&& forall|i: int|
                    0 <= i < events.len() && is_profile_of(#[trigger] events[i], author)
                        ==> events[i].payload.seq <= p.payload.seq
            },
            None => forall|i: int|
                0 <= i < events.len() ==> !is_profile_of(#[trigger] events[i], author),
        },
    decreases events.len(),
{
    if events.len() > 0 {
        let init = events.drop_last();
        latest_profile_is_newest(init, author);
        if let Some(p) = latest_profile(init, author) {
            let i = choose|i: int| 0 <= i < init.len() && init[i] == p;
            assert(events[i] == p);
        }
        assert(events[events.len() - 1] == events.last());
        assert forall|i: int|
            0 <= i < events.len() - 1 && is_profile_of(#[trigger] events[i], author) implies {
            &&& latest_profile(init, author) is Some
            &&& events[i].payload.seq <= latest_profile(init, author)->Some_0.payload.seq
        } by {
            assert(init[i] == events[i]);
        }
    }
}

// ---------------------------------------------------------------------------
// The fold of one chain
// ---------------------------------------------------------------------------

/// Events with their CIDs.
pub open spec fn chain_pairs(events: Seq<EnvelopeModel>) -> Seq<(Seq<u8>, EnvelopeModel)> {
    events.map_values(|e: EnvelopeModel| (event_cid(e), e))
}

/// A post of a store as a post of a folded chain.
pub open spec fn chain_post(row: PostRowModel) -> PostModel {
    PostModel {
        cid: row.cid,
        author: row.author,
        text: row.text,
        timestamp: row.timestamp,
        deleted: row.deleted,
        latest_edit_seq: row.latest_edit_seq,
    }
}

/// Whether no two events have the same CID.
pub open spec fn cids_unique(events: Seq<EnvelopeModel>) -> bool {
    forall|i: int, j: int|
        0 <= i < j < events.len() ==> event_cid(#[trigger] events[i]) != event_cid(
            #[trigger] events[j],
        )
}

/// Whether every edit and deletion of a post comes after the post.
pub open spec fn posts_come_first(events: Seq<EnvelopeModel>) -> bool {
    forall|i: int, j: int|
        0 <= i < j < events.len() && is_post(#[trigger] events[j]) ==> !edits(
            #[trigger] events[i],
            new_post(events[j]),
        ) && !deletes(events[i], new_post(events[j]))
}

proof fn untouched_post(row: PostRowModel, events: Seq<EnvelopeModel>)
    requires
        forall|i: int|
            0 <= i < events.len() ==> !edits(#[trigger] events[i], row) && !deletes(events[i], row),
    ensures
        post_after(row, events) == row,
    decreases events.len(),
{
    if events.len() > 0 {
        let init = events.drop_last();
        assert forall|i: int| 0 <= i < init.len() implies !edits(#[trigger] init[i], row)
            && !deletes(init[i], row) by {
            assert(init[i] == events[i]);
        }
        untouched_post(row, init);
        assert(events[events.len() - 1] == events.last());
    }
}

/// Folding a chain gives the posts that a store with the same events shows, in the same
/// state.
pub proof fn fold_agrees_with_projection(events: Seq<EnvelopeModel>)
    requires
        cids_unique(events),
        posts_come_first(events),
    ensures
        forall|i: int|
            0 <= i < events.len() && is_post(#[trigger] events[i]) ==> {
                let posts = chain_fold(chain_pairs(events)).posts;
                &&& posts.dom().contains(event_cid(events[i]))
                &&& posts[event_cid(events[i])] == chain_post(
                    post_after(new_post(events[i]), events),
                )
            },
        forall|c: Seq<u8>| #[trigger]
            chain_fold(chain_pairs(events)).posts.dom().contains(c) ==> exists|i: int|
                0 <= i < events.len() && is_post(#[trigger] events[i]) && event_cid(events[i])
                    == c,
    decreases events.len(),
{
    if events.len() > 0 {
        let init = events.drop_last();
        let x = events.last();
        let n = events.len() - 1;
        assert forall|i: int| 0 <= i < init.len() implies #[trigger] init[i] == events[i] by {}
        assert(events[n] == x);
        fold_agrees_with_projection(init);
        let before = chain_fold(chain_pairs(init));
        let after = chain_fold(chain_pairs(events));
        assert(chain_pairs(events).drop_last() =~= chain_pairs(init));
        assert(after == chain_step(before, event_cid(x), x));
        assert(events =~= init.push(x));
        assert forall|i: int| 0 <= i < events.len() && is_post(#[trigger] events[i]) implies {
            &&& after.posts.dom().contains(event_cid(events[i]))
            &&& after.posts[event_cid(events[i])] == chain_post(
                post_after(new_post(events[i]), events),
            )
        } by {
            let row = new_post(events[i]);
            post_after_push(row, init, x);
            post_after_same(row, init);
            if i < n {
                assert(init[i] == events[i]);
                assert(event_cid(events[i]) != event_cid(events[n]));
            } else {
                assert forall|j: int| 0 <= j < init.len() implies !edits(#[trigger] init[j], row)
                    && !deletes(init[j], row) by {
                    assert(init[j] == events[j]);
                }
                untouched_post(row, init);
            }
        }
        assert forall|c: Seq<u8>| #[trigger] after.posts.dom().contains(c) implies exists|i: int|
            0 <= i < events.len() && is_post(#[trigger] events[i]) && event_cid(events[i]) == c by {
            if before.posts.dom().contains(c) {
                let i = choose|i: int|
                    0 <= i < init.len() && is_post(#[trigger] init[i]) && event_cid(init[i]) == c;
                assert(is_post(events[i]) && event_cid(events[i]) == c);
            } else {
                assert(is_post(events[n]) && event_cid(events[n]) == c);
            }
        }
    }
}

/// Folding the chain of one author gives the author's newest profile.
pub proof fn fold_agrees_with_latest_profile(events: Seq<EnvelopeModel>, author: Seq<u8>)
    requires
        forall|i: int| 0 <= i < events.len() ==> (#[trigger] events[i]).payload.author == author,
    ensures
        match (chain_fold(chain_pairs(events)).profile, latest_profile(events, author)) {
            (Some(p), Some(e)) => p.0 == e.payload.seq && (e.payload.kind matches KindModel::Profile {
                bio,
                avatar_cid,
                display_name,
            } && p.1.bio == bio && p.1.avatar_cid == avatar_cid && p.1.display_name == display_name),
            (None, None) => true,
            _ => false,
        },
    decreases events.len(),
{
    if events.len() > 0 {
        let init = events.drop_last();
        assert forall|i: int| 0 <= i < init.len() implies (#[trigger] init[i]).payload.author
            == author by {
            assert(init[i] == events[i]);
        }
        fold_agrees_with_latest_profile(init, author);
        latest_profile_is_newest(init, author);
        assert(chain_pairs(events).drop_last() =~= chain_pairs(init));
        assert(events[events.len() - 1] == events.last());
    }
}

// ---------------------------------------------------------------------------
// Finding events
// ---------------------------------------------------------------------------

/// Whether the events hold one with CID `cid`.
pub open spec fn has_event(events: Seq<EnvelopeModel>, cid: Seq<u8>) -> bool {
    exists|i: int| 0 <= i < events.len() && event_cid(#[trigger] events[i]) == cid
}

/// The place of the event with CID `cid`.
pub open spec fn event_index(events: Seq<EnvelopeModel>, cid: Seq<u8>) -> int {
    choose|i: int| 0 <= i < events.len() && event_cid(#[trigger] events[i]) == cid
}

/// Whether event `i` has the highest position among the events for which `among` holds; the
/// first to arrive among equals.
pub open spec fn is_newest_among(
    events: Seq<EnvelopeModel>,
    among: spec_fn(EnvelopeModel) -> bool,
    i: int,
) -> bool {
    &&& 0 <= i < events.len()
    &&& among(events[i])
    &&& forall|j: int|
        0 <= j < events.len() && among(#[trigger] events[j]) ==> events[j].payload.seq
            <= events[i].payload.seq
    &&& forall|j: int|
        0 <= j < i && among(#[trigger] events[j]) ==> events[j].payload.seq
            < events[i].payload.seq
}

/// There is at most one newest event.
pub proof fn newest_is_unique(
    events: Seq<EnvelopeModel>,
    among: spec_fn(EnvelopeModel) -> bool,
    i: int,
    j: int,
)
    requires
        is_newest_among(events, among, i),
        is_newest_among(events, among, j),
    ensures
        i == j,
{
}

/// Among events there is a newest, if there are any.
pub proof fn newest_exists(
    events: Seq<EnvelopeModel>,
    among: spec_fn(EnvelopeModel) -> bool,
    k: int,
)
    requires
        0 <= k < events.len(),
        among(events[k]),
    ensures
        exists|i: int| is_newest_among(events, among, i),
    decreases events.len(),
{
    let init = events.drop_last();
    let n = events.len() - 1;
    if exists|j: int| 0 <= j < n && among(#[trigger] init[j]) {
        let j = choose|j: int| 0 <= j < n && among(#[trigger] init[j]);
        newest_exists(init, among, j);
        let i = choose|i: int| is_newest_among(init, among, i);
        assert(events[i] == init[i]);
        if among(events[n]) && events[n].payload.seq > events[i].payload.seq {
            assert forall|j: int| 0 <= j < events.len() && among(#[trigger] events[j]) implies {
                &&& events[j].payload.seq <= events[n].payload.seq
                &&& j < n ==> events[j].payload.seq < events[n].payload.seq
            } by {
                if j < n {
                    assert(init[j] == events[j]);
                }
            }
            assert(is_newest_among(events, among, n));
        } else {
            assert forall|j: int| 0 <= j < events.len() && among(#[trigger] events[j]) implies {
                &&& events[j].payload.seq <= events[i].payload.seq
                &&& j < i ==> events[j].payload.seq < events[i].payload.seq
            } by {
                if j < n {
                    assert(init[j] == events[j]);
                }
            }
            assert(is_newest_among(events, among, i));
        }
    } else {
        assert forall|j: int| 0 <= j < n implies !among(#[trigger] events[j]) by {
            assert(init[j] == events[j]);
        }
        assert(is_newest_among(events, among, n));
    }
}

/// Of events `b` and `x` the one with the lower position, `b` if they are equal.
pub open spec fn lower_of(events: Seq<EnvelopeModel>, b: int, x: int) -> int {
    if events[x].payload.seq < events[b].payload.seq {
        x
    } else {
        b
    }
}

/// The event with the lowest position that is reached from event `i` by following `prev` as
/// far as the events go, in at most `steps` steps.
pub open spec fn run_bottom(events: Seq<EnvelopeModel>, i: int, steps: nat) -> int
    decreases steps,
{
    match events[i].payload.prev {
        Some(p) => if steps > 0 && has_event(events, p) {
            lower_of(events, i, run_bottom(events, event_index(events, p), (steps - 1) as nat))
        } else {
            i
        },
        None => i,
    }
}

} // verus!
