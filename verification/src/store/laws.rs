//! What holds of the store over several operations.

use crate::cid::cid_text;
use crate::event::{
    envelope_block, envelope_of_block, event_cid, kind_name, EnvelopeModel, KindModel,
};
use crate::head::{head_before, RecordModel};
use crate::order::{bytes_before_total, newest_first, newest_first_sorts};
use crate::projection::{
    cids_unique, deletes, edit_text, edits, edits_agree, has_event, is_post, is_winning_edit,
    last_write_wins, latest_profile, new_post, post_after, post_after_same, posts_made, projection,
    same_post, PostRowModel,
};
use crate::store::model::{
    account_at, accounts_show_profiles, add_fork, empty_store, event_forks, follows_account,
    fork_between, fork_known, head_fork, is_event_fork, on_timeline, other_than, post_of, posts_by,
    same_fork, shown_name, shown_name_at, shown_post, shown_posts_by, shown_timeline, shows_profile, timeline_posts,
    with_event, with_follow, with_record, with_snapshot_name, without_follow, ForkLayer, ForkModel,
    StoreModel,
};
use crate::store::{
    accounts_after_event, is_broken, is_readable, needs_no_repair, repair_of, repairs_needed,
    sound_rows, sound_rows_at, store_consistent, target_of, with_blocks, SavedRowModel,
};
use crate::util::{hex_text, hex_text_injective};
use vstd::prelude::*;
use vstd::utf8::{encode_utf8, encode_utf8_decode_utf8};

verus! {

// ---------------------------------------------------------------------------
// Events
// ---------------------------------------------------------------------------

/// Taking in an event once more changes nothing.
pub proof fn reinsertion_changes_nothing(s: StoreModel, e: EnvelopeModel, now: i64, later: i64)
    ensures
        with_event(with_event(s, e, now), e, later) == with_event(s, e, now),
{
    if !has_event(s.events, event_cid(e)) {
        let after = with_event(s, e, now);
        assert(after.events[s.events.len() as int] == e);
        assert(has_event(after.events, event_cid(e)));
    }
}

/// An event is kept though it contradicts others, and nothing that was there is lost.
pub proof fn events_are_only_added(s: StoreModel, e: EnvelopeModel, now: i64)
    ensures
        has_event(with_event(s, e, now).events, event_cid(e)),
        s.events.is_prefix_of(with_event(s, e, now).events),
{
    if !has_event(s.events, event_cid(e)) {
        let after = with_event(s, e, now);
        assert(after.events[s.events.len() as int] == e);
    }
}

pub(crate) proof fn posts_made_contains(makers: Seq<EnvelopeModel>, all: Seq<EnvelopeModel>, row: PostRowModel)
    ensures
        posts_made(makers, all).contains(row) <==> exists|i: int|
            0 <= i < makers.len() && is_post(#[trigger] makers[i]) && row == post_after(
                new_post(makers[i]),
                all,
            ),
    decreases makers.len(),
{
    let made = posts_made(makers, all);
    if makers.len() > 0 {
        let init = makers.drop_last();
        let before = posts_made(init, all);
        posts_made_contains(init, all, row);
        assert(makers[makers.len() - 1] == makers.last());
        if made.contains(row) {
            let k = choose|k: int| 0 <= k < made.len() && made[k] == row;
            if k < before.len() {
                assert(before[k] == row);
                let i = choose|i: int|
                    0 <= i < init.len() && is_post(#[trigger] init[i]) && row == post_after(
                        new_post(init[i]),
                        all,
                    );
                assert(makers[i] == init[i]);
            }
        }
        if exists|i: int|
            0 <= i < makers.len() && is_post(#[trigger] makers[i]) && row == post_after(
                new_post(makers[i]),
                all,
            ) {
            let i = choose|i: int|
                0 <= i < makers.len() && is_post(#[trigger] makers[i]) && row == post_after(
                    new_post(makers[i]),
                    all,
                );
            if i < init.len() {
                assert(init[i] == makers[i]);
                let k = choose|k: int| 0 <= k < before.len() && before[k] == row;
                assert(made[k] == row);
            } else {
                assert(made[before.len() as int] == row);
            }
        }
    }
}

proof fn posts_carry_over(a: Seq<EnvelopeModel>, b: Seq<EnvelopeModel>, row: PostRowModel)
    requires
        forall|e: EnvelopeModel| a.contains(e) <==> b.contains(e),
        forall|p: PostRowModel| #[trigger] edits_agree(p, a),
        projection(a).contains(row),
    ensures
        projection(b).contains(row),
{
    posts_made_contains(a, a, row);
    posts_made_contains(b, b, row);
    let i = choose|i: int|
        0 <= i < a.len() && is_post(#[trigger] a[i]) && row == post_after(new_post(a[i]), a);
    assert(a.contains(a[i]));
    let j = choose|j: int| 0 <= j < b.len() && b[j] == a[i];
    assert(edits_agree(new_post(a[i]), a));
    crate::projection::arrival_order_is_irrelevant(new_post(a[i]), a, b);
    assert(is_post(b[j]));
}

/// The posts do not depend on the order in which events arrive: two stores with the same
/// events show the same posts, unless an author signed two different edits of one post under
/// one position.
pub proof fn same_events_show_same_posts(a: StoreModel, b: StoreModel, row: PostRowModel)
    requires
        store_consistent(a),
        store_consistent(b),
        forall|e: EnvelopeModel| a.events.contains(e) <==> b.events.contains(e),
        forall|p: PostRowModel| #[trigger] edits_agree(p, a.events),
    ensures
        a.posts.contains(row) <==> b.posts.contains(row),
{
    assert forall|p: PostRowModel| #[trigger] edits_agree(p, b.events) by {
        assert(edits_agree(p, a.events));
        assert forall|i: int, j: int|
            0 <= i < b.events.len() && 0 <= j < b.events.len() && edits(
                #[trigger] b.events[i],
                p,
            ) && edits(#[trigger] b.events[j], p) && b.events[i].payload.seq
                == b.events[j].payload.seq implies edit_text(b.events[i])
            == edit_text(b.events[j]) by {
            assert(b.events.contains(b.events[i]) && b.events.contains(b.events[j]));
            let k = choose|k: int| 0 <= k < a.events.len() && a.events[k] == b.events[i];
            let m = choose|m: int| 0 <= m < a.events.len() && a.events[m] == b.events[j];
            assert(edits(a.events[k], p));
            assert(edits(a.events[m], p));
        }
    }
    if a.posts.contains(row) {
        posts_carry_over(a.events, b.events, row);
    }
    if b.posts.contains(row) {
        posts_carry_over(b.events, a.events, row);
    }
}

/// Whether no two events of one author have the same position.
pub open spec fn positions_unique(events: Seq<EnvelopeModel>) -> bool {
    forall|i: int, j: int|
        0 <= i < events.len() && 0 <= j < events.len() && i != j && #[trigger] events[i].payload.author
            == #[trigger] events[j].payload.author ==> events[i].payload.seq
            != events[j].payload.seq
}

/// Whether no two posts of one author have the same position.
spec fn post_positions_unique(rows: Seq<PostRowModel>) -> bool {
    forall|i: int, j: int|
        0 <= i < rows.len() && 0 <= j < rows.len() && i != j && #[trigger] rows[i].author
            == #[trigger] rows[j].author ==> rows[i].seq != rows[j].seq
}

/// Whether posts stand by strictly falling position.
spec fn falling(rows: Seq<PostRowModel>) -> bool {
    forall|i: int, j: int|
        0 <= i < j < rows.len() ==> (#[trigger] rows[i]).seq > (#[trigger] rows[j]).seq
}

proof fn made_posts_have_unique_positions(makers: Seq<EnvelopeModel>, all: Seq<EnvelopeModel>)
    requires
        positions_unique(makers),
    ensures
        post_positions_unique(posts_made(makers, all)),
    decreases makers.len(),
{
    if makers.len() > 0 {
        let init = makers.drop_last();
        let e = makers.last();
        assert forall|i: int, j: int|
            0 <= i < init.len() && 0 <= j < init.len() && i != j
                && #[trigger] init[i].payload.author
                == #[trigger] init[j].payload.author implies init[i].payload.seq
            != init[j].payload.seq by {
            assert(init[i] == makers[i] && init[j] == makers[j]);
        }
        made_posts_have_unique_positions(init, all);
        let before = posts_made(init, all);
        if is_post(e) {
            let row = post_after(new_post(e), all);
            post_after_same(new_post(e), all);
            assert forall|k: int| 0 <= k < before.len() && #[trigger] before[k].author
                == row.author implies before[k].seq != row.seq by {
                posts_made_contains(init, all, before[k]);
                assert(before.contains(before[k]));
                let i = choose|i: int|
                    0 <= i < init.len() && is_post(#[trigger] init[i]) && before[k] == post_after(
                        new_post(init[i]),
                        all,
                    );
                post_after_same(new_post(init[i]), all);
                assert(init[i] == makers[i]);
                assert(makers[makers.len() - 1] == e);
            }
        }
    }
}

proof fn filtered_posts_have_unique_positions(
    rows: Seq<PostRowModel>,
    pred: spec_fn(PostRowModel) -> bool,
)
    requires
        post_positions_unique(rows),
    ensures
        post_positions_unique(rows.filter(pred)),
        forall|r: PostRowModel| #[trigger]
            rows.filter(pred).contains(r) <==> rows.contains(r) && pred(r),
    decreases rows.len(),
{
    reveal(Seq::filter);
    if rows.len() > 0 {
        let init = rows.drop_last();
        let last = rows.last();
        assert forall|i: int, j: int|
            0 <= i < init.len() && 0 <= j < init.len() && i != j && #[trigger] init[i].author
                == #[trigger] init[j].author implies init[i].seq != init[j].seq by {
            assert(init[i] == rows[i] && init[j] == rows[j]);
        }
        filtered_posts_have_unique_positions(init, pred);
        let before = init.filter(pred);
        let after = rows.filter(pred);
        assert(rows[rows.len() - 1] == last);
        assert forall|k: int| 0 <= k < before.len() && #[trigger] before[k].author
            == last.author implies before[k].seq != last.seq by {
            assert(before.contains(before[k]));
            let i = choose|i: int| 0 <= i < init.len() && init[i] == before[k];
            assert(rows[i] == before[k]);
        }
        assert forall|r: PostRowModel| #[trigger] after.contains(r) <==> rows.contains(r) && pred(
            r,
        ) by {
            if before.contains(r) {
                let k = choose|k: int| 0 <= k < before.len() && before[k] == r;
                assert(after[k] == r);
                let i = choose|i: int| 0 <= i < init.len() && init[i] == r;
                assert(rows[i] == r);
            }
            if rows.contains(r) && pred(r) {
                let i = choose|i: int| 0 <= i < rows.len() && rows[i] == r;
                if i < init.len() {
                    assert(init[i] == r);
                    assert(before.contains(r));
                } else {
                    assert(after[before.len() as int] == r);
                }
            }
            if after.contains(r) {
                let k = choose|k: int| 0 <= k < after.len() && after[k] == r;
                if k < before.len() {
                    assert(before[k] == r);
                    assert(before.contains(r));
                }
            }
        }
    }
}

proof fn falling_lists_are_equal(x: Seq<PostRowModel>, y: Seq<PostRowModel>)
    requires
        falling(x),
        falling(y),
        forall|r: PostRowModel| x.contains(r) <==> y.contains(r),
    ensures
        x == y,
    decreases x.len(),
{
    if x.len() == 0 {
        if y.len() > 0 {
            assert(y.contains(y[0]));
        }
        assert(x =~= y);
    } else {
        assert(x.contains(x[0]));
        let m = x.last();
        assert(x[x.len() - 1] == m && x.contains(m));
        let k = choose|k: int| 0 <= k < y.len() && y[k] == m;
        let w = y.last();
        assert(y[y.len() - 1] == w && y.contains(w));
        let h = choose|h: int| 0 <= h < x.len() && x[h] == w;
        assert(h == x.len() - 1 || x[h].seq > m.seq);
        assert(k == y.len() - 1 || y[k].seq > w.seq);
        assert(m == w);
        let xi = x.drop_last();
        let yi = y.drop_last();
        assert forall|i: int, j: int| 0 <= i < j < xi.len() implies (#[trigger] xi[i]).seq > (
        #[trigger] xi[j]).seq by {
            assert(xi[i] == x[i] && xi[j] == x[j]);
        }
        assert forall|i: int, j: int| 0 <= i < j < yi.len() implies (#[trigger] yi[i]).seq > (
        #[trigger] yi[j]).seq by {
            assert(yi[i] == y[i] && yi[j] == y[j]);
        }
        assert forall|r: PostRowModel| xi.contains(r) <==> yi.contains(r) by {
            if xi.contains(r) {
                let i = choose|i: int| 0 <= i < xi.len() && xi[i] == r;
                assert(x[i] == r && x.contains(r));
                assert(x[i].seq > x[x.len() - 1].seq);
                let j = choose|j: int| 0 <= j < y.len() && y[j] == r;
                assert(j < yi.len() && yi[j] == r);
            }
            if yi.contains(r) {
                let j = choose|j: int| 0 <= j < yi.len() && yi[j] == r;
                assert(y[j] == r && y.contains(r));
                assert(y[j].seq > y[y.len() - 1].seq);
                let i = choose|i: int| 0 <= i < x.len() && x[i] == r;
                assert(i < xi.len() && xi[i] == r);
            }
        }
        falling_lists_are_equal(xi, yi);
        assert(x =~= xi.push(m) && y =~= yi.push(m));
    }
}

/// The posts of an account, the highest position first.
spec fn ordered_posts_by(s: StoreModel, key: Seq<char>) -> Seq<PostRowModel> {
    let rows = posts_by(s, key);
    newest_first(rows.map_values(|p: PostRowModel| p.seq as int), rows.len()).map_values(
        |i: int| rows[i],
    )
}

proof fn ordered_posts_fall(s: StoreModel, key: Seq<char>)
    requires
        store_consistent(s),
        positions_unique(s.events),
    ensures
        falling(ordered_posts_by(s, key)),
        forall|r: PostRowModel| #[trigger]
            ordered_posts_by(s, key).contains(r) <==> s.posts.contains(r) && post_of(key)(r),
        shown_posts_by(s, key) == ordered_posts_by(s, key).map_values(
            |r: PostRowModel| shown_post(r),
        ),
{
    let rows = posts_by(s, key);
    let keys = rows.map_values(|p: PostRowModel| p.seq as int);
    let order = newest_first(keys, rows.len());
    let out = ordered_posts_by(s, key);
    made_posts_have_unique_positions(s.events, s.events);
    filtered_posts_have_unique_positions(s.posts, post_of(key));
    newest_first_sorts(keys, rows.len());
    assert forall|a: int, b: int| 0 <= a < b < out.len() implies (#[trigger] out[a]).seq > (
    #[trigger] out[b]).seq by {
        let i = order[a];
        let j = order[b];
        assert(out[a] == rows[i] && out[b] == rows[j]);
        assert(keys[i] == rows[i].seq && keys[j] == rows[j].seq);
        assert(rows.contains(rows[i]) && rows.contains(rows[j]));
        hex_text_injective(rows[i].author, rows[j].author);
    }
    assert forall|r: PostRowModel| #[trigger] out.contains(r) <==> s.posts.contains(r) && post_of(
        key,
    )(r) by {
        if out.contains(r) {
            let a = choose|a: int| 0 <= a < out.len() && out[a] == r;
            assert(rows[order[a]] == r);
            assert(rows.contains(r));
        }
        if rows.contains(r) {
            let i = choose|i: int| 0 <= i < rows.len() && rows[i] == r;
            assert(order.contains(i));
            let a = choose|a: int| 0 <= a < order.len() && order[a] == i;
            assert(out[a] == r);
        }
    }
    assert(shown_posts_by(s, key) =~= out.map_values(|r: PostRowModel| shown_post(r)));
}

/// The list of an account's posts does not depend on the order in which events arrive: two
/// stores with the same events, no two of them by one author under one position, list the same
/// rows in the same order.
pub proof fn same_events_list_same_posts(a: StoreModel, b: StoreModel, key: Seq<char>)
    requires
        store_consistent(a),
        store_consistent(b),
        forall|e: EnvelopeModel| a.events.contains(e) <==> b.events.contains(e),
        positions_unique(a.events),
    ensures
        shown_posts_by(a, key) == shown_posts_by(b, key),
{
    assert forall|p: PostRowModel| #[trigger] edits_agree(p, a.events) by {}
    assert(positions_unique(b.events)) by {
        assert forall|i: int, j: int|
            0 <= i < b.events.len() && 0 <= j < b.events.len() && i != j
                && #[trigger] b.events[i].payload.author
                == #[trigger] b.events[j].payload.author implies b.events[i].payload.seq
            != b.events[j].payload.seq by {
            assert(b.events.contains(b.events[i]) && b.events.contains(b.events[j]));
            let k = choose|k: int| 0 <= k < a.events.len() && a.events[k] == b.events[i];
            let m = choose|m: int| 0 <= m < a.events.len() && a.events[m] == b.events[j];
            if i < j {
                assert(event_cid(b.events[i]) != event_cid(b.events[j]));
            } else {
                assert(event_cid(b.events[j]) != event_cid(b.events[i]));
            }
            assert(k != m);
            assert(a.events[k].payload.author == a.events[m].payload.author);
        }
    }
    let x = ordered_posts_by(a, key);
    let y = ordered_posts_by(b, key);
    ordered_posts_fall(a, key);
    ordered_posts_fall(b, key);
    assert forall|r: PostRowModel| x.contains(r) <==> y.contains(r) by {
        same_events_show_same_posts(a, b, r);
    }
    falling_lists_are_equal(x, y);
}

/// Every post of a store carries what its author's other events did to it: the text of the
/// edit with the highest position above its own, if there is one, and a deletion. It shows
/// nothing of other authors.
pub proof fn posts_carry_edits_and_deletions(s: StoreModel, k: int)
    requires
        store_consistent(s),
        0 <= k < s.posts.len(),
    ensures
        exists|i: int|
            #![trigger s.events[i]]
            0 <= i < s.events.len() && is_post(s.events[i]) && {
                let made = new_post(s.events[i]);
                let shown = s.posts[k];
                &&& same_post(shown, made)
                &&& shown.deleted <==> exists|j: int|
                    0 <= j < s.events.len() && deletes(#[trigger] s.events[j], made)
                &&& (exists|j: int| #[trigger]
                    is_winning_edit(made, s.events, j) && shown.edited && shown.text == edit_text(
                        s.events[j],
                    )) || {
                    &&& forall|j: int|
                        0 <= j < s.events.len() && edits(#[trigger] s.events[j], made)
                            ==> s.events[j].payload.seq <= made.seq
                    &&& !shown.edited
                    &&& shown.text == made.text
                }
            },
{
    let shown = s.posts[k];
    assert(projection(s.events).contains(shown));
    posts_made_contains(s.events, s.events, shown);
    let i = choose|i: int|
        0 <= i < s.events.len() && is_post(#[trigger] s.events[i]) && shown == post_after(
            new_post(s.events[i]),
            s.events,
        );
    last_write_wins(new_post(s.events[i]), s.events);
}

// ---------------------------------------------------------------------------
// Saved rows
// ---------------------------------------------------------------------------

/// A row with the target that it lacked.
pub open spec fn repaired(row: SavedRowModel) -> SavedRowModel {
    match repair_of(row) {
        Some((_, target)) => SavedRowModel { target_cid: Some(target), ..row },
        None => row,
    }
}

/// Rows with the targets that they lacked.
pub open spec fn repaired_rows(rows: Seq<SavedRowModel>) -> Seq<SavedRowModel> {
    rows.map_values(|r: SavedRowModel| repaired(r))
}

/// The blocks in a list of rows.
pub open spec fn row_blocks(rows: Seq<SavedRowModel>) -> Seq<Seq<u8>> {
    rows.map_values(|r: SavedRowModel| r.raw_cbor)
}

/// Whether a row was saved from the event in it, with its target or without.
pub open spec fn saves_its_event(row: SavedRowModel) -> bool {
    envelope_of_block(row.raw_cbor) matches Ok(e) && {
        &&& row.kind_tag == kind_name(e.payload.kind)
        &&& row.target_cid matches Some(text) ==> target_of(e.payload.kind) matches Some(t) && text
            == cid_text(t)
    }
}

/// Whether a row has the target that the event in it names.
pub open spec fn has_its_target(row: SavedRowModel) -> bool {
    envelope_of_block(row.raw_cbor) matches Ok(e) && row.target_cid == match target_of(
        e.payload.kind,
    ) {
        Some(t) => Some(cid_text(t)),
        None => None,
    }
}

/// The pass over the saved rows lists a repair for each row that needs one, and no other.
pub proof fn every_repair_is_listed(rows: Seq<SavedRowModel>, repair: (Seq<char>, Seq<char>))
    ensures
        repairs_needed(rows).contains(repair) <==> exists|i: int|
            0 <= i < rows.len() && #[trigger] repair_of(rows[i]) == Some(repair),
    decreases rows.len(),
{
    let all = repairs_needed(rows);
    if rows.len() > 0 {
        let init = rows.drop_last();
        let before = repairs_needed(init);
        every_repair_is_listed(init, repair);
        assert(rows[rows.len() - 1] == rows.last());
        if all.contains(repair) {
            let k = choose|k: int| 0 <= k < all.len() && all[k] == repair;
            if k < before.len() {
                assert(before[k] == repair);
                let i = choose|i: int|
                    0 <= i < init.len() && #[trigger] repair_of(init[i]) == Some(repair);
                assert(rows[i] == init[i]);
            } else {
                assert(repair_of(rows[rows.len() - 1]) == Some(repair));
            }
        }
        if exists|i: int| 0 <= i < rows.len() && #[trigger] repair_of(rows[i]) == Some(repair) {
            let i = choose|i: int|
                0 <= i < rows.len() && #[trigger] repair_of(rows[i]) == Some(repair);
            if i < init.len() {
                assert(repair_of(init[i]) == Some(repair));
                let k = choose|k: int| 0 <= k < before.len() && before[k] == repair;
                assert(all[k] == repair);
            } else {
                assert(all[before.len() as int] == repair);
            }
        }
    }
}

/// A repaired row needs no repair.
pub proof fn repaired_row_needs_no_repair(row: SavedRowModel)
    requires
        !is_broken(row),
    ensures
        needs_no_repair(repaired(row)),
        repaired(repaired(row)) == repaired(row),
{
}

/// After one pass over rows that were saved from their events, every row has the target that
/// its event names.
pub proof fn repair_pass_fills_every_target(rows: Seq<SavedRowModel>)
    requires
        forall|i: int| 0 <= i < rows.len() ==> saves_its_event(#[trigger] rows[i]),
    ensures
        sound_rows(rows) == rows.len(),
        forall|i: int| 0 <= i < rows.len() ==> has_its_target(#[trigger] repaired_rows(rows)[i]),
{
    assert forall|j: int| 0 <= j < rows.len() implies !is_broken(#[trigger] rows[j]) by {
        assert(saves_its_event(rows[j]));
    }
    sound_rows_at(rows, rows.len() as int);
    assert forall|i: int| 0 <= i < rows.len() implies has_its_target(
        #[trigger] repaired_rows(rows)[i],
    ) by {
        assert(saves_its_event(rows[i]));
    }
}

/// A second pass repairs nothing, and no pass touches the events: the posts that come of the
/// rows stay the same.
pub proof fn second_repair_pass_changes_nothing(rows: Seq<SavedRowModel>)
    requires
        forall|i: int| 0 <= i < rows.len() ==> !is_broken(#[trigger] rows[i]),
    ensures
        sound_rows(repaired_rows(rows)) == rows.len(),
        repairs_needed(repaired_rows(rows)) == Seq::<(Seq<char>, Seq<char>)>::empty(),
        repaired_rows(repaired_rows(rows)) == repaired_rows(rows),
        row_blocks(repaired_rows(rows)) == row_blocks(rows),
{
    let after = repaired_rows(rows);
    assert forall|i: int| 0 <= i < after.len() implies needs_no_repair(#[trigger] after[i]) by {
        assert(!is_broken(rows[i]));
        repaired_row_needs_no_repair(rows[i]);
    }
    sound_rows_at(after, after.len() as int);
    let again = repairs_needed(after);
    if again.len() > 0 {
        every_repair_is_listed(after, again[0]);
        assert(again.contains(again[0]));
    }
    assert(again =~= Seq::<(Seq<char>, Seq<char>)>::empty());
    assert(repaired_rows(after) =~= after);
    assert(row_blocks(after) =~= row_blocks(rows));
}

/// The blocks of a list of events.
pub open spec fn event_blocks(events: Seq<EnvelopeModel>) -> Seq<Seq<u8>> {
    events.map_values(|e: EnvelopeModel| envelope_block(e))
}

proof fn rebuilt_prefix(events: Seq<EnvelopeModel>, now: i64)
    requires
        cids_unique(events),
        forall|i: int| 0 <= i < events.len() ==> is_readable(#[trigger] events[i]),
    ensures
        with_blocks(empty_store(), event_blocks(events), now).events == events,
        with_blocks(empty_store(), event_blocks(events), now).posts == projection(events),
        accounts_show_profiles(
            with_blocks(empty_store(), event_blocks(events), now).accounts,
            events,
        ),
    decreases events.len(),
{
    let blocks = event_blocks(events);
    if events.len() > 0 {
        let init = events.drop_last();
        let e = events.last();
        assert forall|i: int| 0 <= i < init.len() implies is_readable(#[trigger] init[i]) by {
            assert(init[i] == events[i]);
        }
        assert forall|i: int, j: int| 0 <= i < j < init.len() implies event_cid(#[trigger] init[i])
            != event_cid(#[trigger] init[j]) by {
            assert(init[i] == events[i] && init[j] == events[j]);
        }
        rebuilt_prefix(init, now);
        assert(blocks.drop_last() =~= event_blocks(init));
        assert(is_readable(events[events.len() - 1]));
        assert(blocks.last() == envelope_block(e));
        let before = with_blocks(empty_store(), event_blocks(init), now);
        if has_event(before.events, event_cid(e)) {
            let i = choose|i: int|
                0 <= i < init.len() && event_cid(#[trigger] init[i]) == event_cid(e);
            assert(event_cid(events[i]) != event_cid(events[events.len() - 1]));
        }
        assert(init.push(e) =~= events);
        accounts_after_event(before, e);
    } else {
        assert(events =~= Seq::<EnvelopeModel>::empty());
        assert(projection(events) =~= Seq::<PostRowModel>::empty());
    }
}

/// What is shown can be rebuilt from the blocks alone: taking in the blocks of a store's
/// events in their order gives the same events, the same posts, and the same profile of every
/// account.
pub proof fn store_can_be_rebuilt(s: StoreModel, author: Seq<u8>, now: i64)
    requires
        store_consistent(s),
    ensures
        ({
            let again = with_blocks(empty_store(), event_blocks(s.events), now);
            let key = hex_text(author);
            &&& again.events == s.events
            &&& again.posts == s.posts
            &&& account_at(again.accounts, key).display_name == account_at(
                s.accounts,
                key,
            ).display_name
            &&& account_at(again.accounts, key).bio == account_at(s.accounts, key).bio
            &&& account_at(again.accounts, key).last_seen == account_at(s.accounts, key).last_seen
        }),
{
    rebuilt_prefix(s.events, now);
    let again = with_blocks(empty_store(), event_blocks(s.events), now);
    let profile = latest_profile(s.events, author);
    assert(shows_profile(account_at(again.accounts, hex_text(author)), profile));
    assert(shows_profile(account_at(s.accounts, hex_text(author)), profile));
}

// ---------------------------------------------------------------------------
// Head records and names
// ---------------------------------------------------------------------------

/// A head record that is kept is never replaced by one that is not newer.
pub proof fn heads_never_go_back(s: StoreModel, r: RecordModel, key: Seq<char>, now: i64)
    requires
        s.heads.dom().contains(key),
    ensures
        ({
            let after = with_record(s, r, now).heads;
            &&& after.dom().contains(key)
            &&& after[key] == s.heads[key] || head_before(
                s.heads[key].sequence,
                s.heads[key].validity,
                after[key].sequence,
                after[key].validity,
            )
        }),
{
}

/// The chain wins over the head record: the name in the newest profile event, if there is
/// one, is the name under which the account is shown.
pub proof fn profile_name_wins(s: StoreModel, author: Seq<u8>)
    requires
        store_consistent(s),
        latest_profile(s.events, author) is Some,
    ensures
        latest_profile(s.events, author)->Some_0.payload.kind matches KindModel::Profile {
            display_name,
            ..
        } && (display_name.len() > 0 ==> shown_name_at(s.accounts, hex_text(author)) == Some(
            display_name,
        )),
{
    assert(shows_profile(
        account_at(s.accounts, hex_text(author)),
        latest_profile(s.events, author),
    ));
}

/// The name in a head record fills a gap and nothing else: it changes neither profiles nor
/// the names that come from them.
pub proof fn snapshot_only_fills_gaps(
    s: StoreModel,
    key: Seq<char>,
    sequence: u64,
    name: Seq<char>,
    other: Seq<char>,
)
    ensures
        ({
            let after = with_snapshot_name(s, key, sequence, name);
            let was = account_at(s.accounts, other);
            let is = account_at(after.accounts, other);
            &&& is.display_name == was.display_name
            &&& is.bio == was.bio
            &&& was.display_name.len() > 0 ==> shown_name(is) == shown_name(was)
            &&& other != key ==> is == was
        }),
{
}

// ---------------------------------------------------------------------------
// Forks
// ---------------------------------------------------------------------------

proof fn forks_only_grow(
    forks: Seq<ForkModel>,
    events: Seq<EnvelopeModel>,
    e: EnvelopeModel,
    now: i64,
    f: ForkModel,
)
    requires
        fork_known(forks, f),
    ensures
        fork_known(event_forks(forks, events, e, now), f),
    decreases events.len(),
{
    if events.len() > 0 {
        forks_only_grow(forks, events.drop_last(), e, now, f);
        let before = event_forks(forks, events.drop_last(), e, now);
        let after = event_forks(forks, events, e, now);
        let i = choose|i: int| 0 <= i < before.len() && same_fork(#[trigger] before[i], f);
        assert(after[i] == before[i]);
    }
}

/// The fork between an event that is kept and a new one.
pub open spec fn fork_with(x: EnvelopeModel, e: EnvelopeModel, now: i64) -> ForkModel {
    fork_between(
        hex_text(e.payload.author),
        ForkLayer::Event,
        e.payload.seq,
        cid_text(event_cid(x)),
        envelope_block(x),
        cid_text(event_cid(e)),
        envelope_block(e),
        now,
    )
}

pub(crate) proof fn contradiction_is_among(
    forks: Seq<ForkModel>,
    events: Seq<EnvelopeModel>,
    e: EnvelopeModel,
    i: int,
    now: i64,
)
    requires
        0 <= i < events.len(),
        is_event_fork(events[i], e),
    ensures
        fork_known(event_forks(forks, events, e, now), fork_with(events[i], e, now)),
    decreases events.len(),
{
    let before = event_forks(forks, events.drop_last(), e, now);
    let after = event_forks(forks, events, e, now);
    let f = fork_with(events[i], e, now);
    if i == events.len() - 1 {
        if !fork_known(before, f) {
            assert(same_fork(after[before.len() as int], f));
        }
    } else {
        assert(events.drop_last()[i] == events[i]);
        contradiction_is_among(forks, events.drop_last(), e, i, now);
        let k = choose|k: int| 0 <= k < before.len() && same_fork(#[trigger] before[k], f);
        assert(after[k] == before[k]);
    }
}

/// Two events of one author under one position are recorded as a fork as soon as the second
/// comes in, and both are kept.
pub proof fn contradiction_is_recorded(s: StoreModel, e: EnvelopeModel, i: int, now: i64)
    requires
        0 <= i < s.events.len(),
        is_event_fork(s.events[i], e),
        !has_event(s.events, event_cid(e)),
    ensures
        ({
            let after = with_event(s, e, now);
            &&& fork_known(after.forks, fork_with(s.events[i], e, now))
            &&& after.events.contains(s.events[i])
            &&& after.events.contains(e)
        }),
{
    contradiction_is_among(s.forks, s.events, e, i, now);
    let after = with_event(s, e, now);
    assert(after.events[i] == s.events[i]);
    assert(after.events[s.events.len() as int] == e);
}

/// Two head records of one account under one sequence that point at different heads are
/// recorded as a fork as soon as the second comes in.
pub proof fn head_contradiction_is_recorded(s: StoreModel, r: RecordModel, now: i64)
    requires
        head_fork(s, r, now) is Some,
    ensures
        fork_known(with_record(s, r, now).forks, head_fork(s, r, now)->Some_0),
{
    let f = head_fork(s, r, now)->Some_0;
    let after = with_record(s, r, now).forks;
    if !fork_known(s.forks, f) {
        assert(same_fork(after[s.forks.len() as int], f));
    }
}

/// Forks that were recorded stay.
pub proof fn forks_are_kept(s: StoreModel, e: EnvelopeModel, f: ForkModel, now: i64)
    requires
        fork_known(s.forks, f),
    ensures
        fork_known(with_event(s, e, now).forks, f),
{
    forks_only_grow(s.forks, s.events, e, now, f);
}

/// Which of the two came first does not matter: a pair has one form.
pub proof fn fork_has_one_form(
    author: Seq<char>,
    layer: ForkLayer,
    seq: u64,
    cid_1: Seq<char>,
    evidence_1: Seq<u8>,
    cid_2: Seq<char>,
    evidence_2: Seq<u8>,
    now: i64,
)
    requires
        cid_1 != cid_2,
    ensures
        fork_between(author, layer, seq, cid_1, evidence_1, cid_2, evidence_2, now)
            == fork_between(author, layer, seq, cid_2, evidence_2, cid_1, evidence_1, now),
{
    encode_utf8_decode_utf8(cid_1);
    encode_utf8_decode_utf8(cid_2);
    bytes_before_total(encode_utf8(cid_1), encode_utf8(cid_2));
}

/// A fork that is seen again is not recorded again.
pub proof fn fork_is_recorded_once(forks: Seq<ForkModel>, f: ForkModel, again: ForkModel)
    requires
        same_fork(f, again),
    ensures
        add_fork(add_fork(forks, f), again) == add_fork(forks, f),
{
    let after = add_fork(forks, f);
    if fork_known(forks, f) {
        let i = choose|i: int| 0 <= i < forks.len() && same_fork(#[trigger] forks[i], f);
        assert(same_fork(after[i], again));
    } else {
        assert(same_fork(after[forks.len() as int], again));
    }
}

// ---------------------------------------------------------------------------
// Follows and the timeline
// ---------------------------------------------------------------------------

/// An account that was followed is followed, and the others are as before.
pub proof fn follow_takes_effect(s: StoreModel, key: Seq<char>, since: i64, other: Seq<char>)
    ensures
        follows_account(with_follow(s, key, since), other) <==> other == key || follows_account(
            s,
            other,
        ),
{
    let after = with_follow(s, key, since);
    if !follows_account(s, key) {
        assert(after.follows[s.follows.len() as int].0 == key);
        if follows_account(s, other) {
            let i = choose|i: int| 0 <= i < s.follows.len() && (#[trigger] s.follows[i]).0 == other;
            assert(after.follows[i].0 == other);
        }
        if follows_account(after, other) && other != key {
            let i = choose|i: int|
                0 <= i < after.follows.len() && (#[trigger] after.follows[i]).0 == other;
            assert(s.follows[i].0 == other);
        }
    }
}

proof fn filter_contains<A>(s: Seq<A>, pred: spec_fn(A) -> bool, x: A)
    ensures
        s.filter(pred).contains(x) <==> s.contains(x) && pred(x),
    decreases s.len(),
{
    reveal(Seq::filter);
    if s.len() > 0 {
        let init = s.drop_last();
        filter_contains(init, pred, x);
        assert(s.contains(x) <==> init.contains(x) || x == s.last()) by {
            if s.contains(x) {
                let i = choose|i: int| 0 <= i < s.len() && s[i] == x;
                if i < init.len() {
                    assert(init[i] == x);
                }
            }
            if init.contains(x) {
                let i = choose|i: int| 0 <= i < init.len() && init[i] == x;
                assert(s[i] == x);
            }
            assert(s[s.len() - 1] == s.last());
        }
        let before = init.filter(pred);
        let after = s.filter(pred);
        if pred(s.last()) {
            assert(after == before.push(s.last()));
            assert(after.contains(x) <==> before.contains(x) || x == s.last()) by {
                if after.contains(x) {
                    let i = choose|i: int| 0 <= i < after.len() && after[i] == x;
                    if i < before.len() {
                        assert(before[i] == x);
                    }
                }
                if before.contains(x) {
                    let i = choose|i: int| 0 <= i < before.len() && before[i] == x;
                    assert(after[i] == x);
                }
                assert(after[before.len() as int] == s.last());
            }
        }
    }
}

/// An account that is no longer followed is not followed, and the others are as before.
pub proof fn unfollow_takes_effect(s: StoreModel, key: Seq<char>, other: Seq<char>)
    ensures
        follows_account(without_follow(s, key), other) <==> other != key && follows_account(
            s,
            other,
        ),
{
    let after = without_follow(s, key);
    if follows_account(after, other) {
        let i = choose|i: int|
            0 <= i < after.follows.len() && (#[trigger] after.follows[i]).0 == other;
        let f = after.follows[i];
        assert(after.follows.contains(f));
        filter_contains(s.follows, other_than(key), f);
        let j = choose|j: int| 0 <= j < s.follows.len() && s.follows[j] == f;
        assert(s.follows[j].0 == other);
    }
    if other != key && follows_account(s, other) {
        let i = choose|i: int| 0 <= i < s.follows.len() && (#[trigger] s.follows[i]).0 == other;
        let f = s.follows[i];
        assert(s.follows.contains(f));
        filter_contains(s.follows, other_than(key), f);
        let j = choose|j: int| 0 <= j < after.follows.len() && after.follows[j] == f;
        assert(after.follows[j].0 == other);
    }
}

/// The timeline shows the posts of the account itself and of those that it follows, no others,
/// and the latest first.
pub proof fn timeline_shows_own_and_followed(s: StoreModel, key: Seq<char>)
    ensures
        ({
            let shown = shown_timeline(s, key);
            &&& forall|a: int, b: int|
                0 <= a < b < shown.len() ==> (#[trigger] shown[a]).0.timestamp >= (
                #[trigger] shown[b]).0.timestamp
            &&& forall|a: int|
                0 <= a < shown.len() ==> {
                    let author = (#[trigger] shown[a]).0.author;
                    author == key || follows_account(s, author)
                }
            &&& forall|i: int|
                0 <= i < s.posts.len() && (hex_text((#[trigger] s.posts[i]).author) == key
                    || follows_account(s, hex_text(s.posts[i].author))) ==> shown.contains(
                    (
                        shown_post(s.posts[i]),
                        shown_name_at(s.accounts, hex_text(s.posts[i].author)),
                    ),
                )
        }),
{
    let rows = timeline_posts(s, key);
    let keys = rows.map_values(|p: PostRowModel| p.timestamp as int);
    let order = newest_first(keys, rows.len());
    let shown = shown_timeline(s, key);
    newest_first_sorts(keys, rows.len());
    assert forall|a: int| 0 <= a < shown.len() implies (#[trigger] shown[a]) == (
        shown_post(rows[order[a]]),
        shown_name_at(s.accounts, hex_text(rows[order[a]].author)),
    ) by {}
    assert forall|a: int, b: int| 0 <= a < b < shown.len() implies (
    #[trigger] shown[a]).0.timestamp >= (#[trigger] shown[b]).0.timestamp by {
        assert(keys[order[a]] >= keys[order[b]]);
        assert(keys[order[a]] == rows[order[a]].timestamp);
        assert(keys[order[b]] == rows[order[b]].timestamp);
    }
    assert forall|a: int| 0 <= a < shown.len() implies {
        let author = (#[trigger] shown[a]).0.author;
        author == key || follows_account(s, author)
    } by {
        let row = rows[order[a]];
        assert(rows.contains(row));
        filter_contains(s.posts, on_timeline(s, key), row);
    }
    assert forall|i: int|
        0 <= i < s.posts.len() && (hex_text((#[trigger] s.posts[i]).author) == key
            || follows_account(s, hex_text(s.posts[i].author))) implies shown.contains(
        (shown_post(s.posts[i]), shown_name_at(s.accounts, hex_text(s.posts[i].author))),
    ) by {
        let row = s.posts[i];
        assert(s.posts.contains(row));
        filter_contains(s.posts, on_timeline(s, key), row);
        let k = choose|k: int| 0 <= k < rows.len() && rows[k] == row;
        assert(order.contains(k));
        let a = choose|a: int| 0 <= a < order.len() && order[a] == k;
        assert(shown[a] == (shown_post(row), shown_name_at(s.accounts, hex_text(row.author))));
    }
}

} // verus!
