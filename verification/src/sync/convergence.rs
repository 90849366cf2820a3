//! What a session comes to when the network has the blocks: the chain is fetched whole, from
//! wherever the store stands.

use crate::cid::cid_text;
use crate::event::{envelope_block, envelope_signed, event_cid, EnvelopeModel};
use crate::head::{record_signed, RecordModel};
use crate::projection::{cids_unique, event_index, has_event, run_bottom};
use crate::store::is_readable;
use crate::store::model::{account_at, events_by, is_head_of, with_event, StoreModel};
use crate::sync::laws::{after_answers, sync_run};
use crate::sync::model::{
    advance, bottom_event, can_continue, checked_block, end_walk, finish, flushed, gathered,
    go_backward, head_event, head_event_at, is_stale, keep_events, new_session, record_noted,
    resumed, session_floor, walk_stop, LimitsModel, NextModel, SessionModel, StopModel,
};
use crate::util::{hex_text, hex_text_injective};
use vstd::prelude::*;

verus! {

/// Whether `c` is the chain of the account `name` from its first event on.
pub open spec fn is_chain(c: Seq<EnvelopeModel>, name: Seq<u8>) -> bool {
    &&& cids_unique(c)
    &&& forall|i: int|
        0 <= i < c.len() ==> {
            let e = #[trigger] c[i];
            &&& e.payload.author == name
            &&& e.payload.seq == i
            &&& e.payload.prev == if i == 0 {
                None
            } else {
                Some(event_cid(c[i - 1]))
            }
            &&& envelope_signed(e)
            &&& is_readable(e)
        }
}

/// The numbers from `lo` up to below `hi`.
pub open spec fn span(lo: int, hi: int) -> Set<int> {
    Set::new(|i: int| lo <= i < hi)
}

/// Whether the events that the store holds of the account are those of the chain at the
/// places in `known`.
pub open spec fn holds(
    s: StoreModel,
    c: Seq<EnvelopeModel>,
    name: Seq<u8>,
    known: Set<int>,
) -> bool {
    &&& cids_unique(s.events)
    &&& forall|i: int| 0 <= i < c.len() && known.contains(i) ==> s.events.contains(#[trigger] c[i])
    &&& forall|i: int|
        0 <= i < c.len() && !known.contains(i) ==> !has_event(s.events, event_cid(#[trigger] c[i]))
    &&& forall|j: int|
        0 <= j < s.events.len() && (#[trigger] s.events[j]).payload.author == name ==> {
            let i = s.events[j].payload.seq as int;
            i < c.len() && known.contains(i) && c[i] == s.events[j]
        }
}

/// The answers of a network that has the chain, for the places from below `from` down to
/// `to`.
pub open spec fn blocks_down(c: Seq<EnvelopeModel>, from: int, to: int) -> Seq<Option<Seq<u8>>> {
    Seq::new((from - to) as nat, |j: int| Some(envelope_block(c[from - 1 - j])))
}

proof fn holds_next(
    s: StoreModel,
    c: Seq<EnvelopeModel>,
    name: Seq<u8>,
    known: Set<int>,
    k: int,
    now: i64,
)
    requires
        is_chain(c, name),
        holds(s, c, name, known),
        0 <= k < c.len(),
    ensures
        holds(with_event(s, c[k], now), c, name, known.insert(k)),
{
    let e = c[k];
    let after = with_event(s, e, now);
    if known.contains(k) {
        assert(s.events.contains(e));
        let p = choose|p: int| 0 <= p < s.events.len() && s.events[p] == e;
        assert(event_cid(s.events[p]) == event_cid(e));
        assert(known.insert(k) =~= known);
    } else {
        let n = s.events.len() as int;
        assert(after.events == s.events.push(e));
        assert(after.events[n] == e);
        assert forall|i: int, j: int| 0 <= i < j < after.events.len() implies event_cid(
            #[trigger] after.events[i],
        ) != event_cid(#[trigger] after.events[j]) by {
            assert(after.events[i] == s.events[i]);
            if j < n {
                assert(after.events[j] == s.events[j]);
            } else {
                assert(!has_event(s.events, event_cid(e)));
            }
        }
        assert forall|i: int| 0 <= i < c.len() && known.insert(k).contains(i) implies
            after.events.contains(#[trigger] c[i]) by {
            if i != k {
                assert(s.events.contains(c[i]));
                let p = choose|p: int| 0 <= p < n && s.events[p] == c[i];
                assert(after.events[p] == c[i]);
            }
        }
        assert forall|i: int| 0 <= i < c.len() && !known.insert(k).contains(i) implies !has_event(
            after.events,
            event_cid(#[trigger] c[i]),
        ) by {
            assert(!has_event(s.events, event_cid(c[i])));
            if has_event(after.events, event_cid(c[i])) {
                let p = choose|p: int|
                    0 <= p < after.events.len() && event_cid(#[trigger] after.events[p])
                        == event_cid(c[i]);
                if p < n {
                    assert(event_cid(s.events[p]) == event_cid(c[i]));
                } else if i < k {
                    assert(event_cid(c[i]) != event_cid(c[k]));
                } else {
                    assert(event_cid(c[k]) != event_cid(c[i]));
                }
            }
        }
        assert forall|j: int|
            0 <= j < after.events.len() && (#[trigger] after.events[j]).payload.author == name implies {
            let i = after.events[j].payload.seq as int;
            i < c.len() && known.insert(k).contains(i) && c[i] == after.events[j]
        } by {
            if j < n {
                assert(after.events[j] == s.events[j]);
            }
        }
    }
}

/// Keeping a piece of the chain, gathered from its newest event `top` down to `k`.
proof fn holds_kept(
    s: StoreModel,
    c: Seq<EnvelopeModel>,
    name: Seq<u8>,
    known: Set<int>,
    buffer: Seq<EnvelopeModel>,
    k: int,
    now: i64,
)
    requires
        is_chain(c, name),
        holds(s, c, name, known),
        0 <= k,
        k + buffer.len() <= c.len(),
        forall|j: int|
            0 <= j < buffer.len() ==> #[trigger] buffer[j] == c[k + buffer.len() - 1 - j],
    ensures
        holds(
            keep_events(s, buffer, now),
            c,
            name,
            known.union(span(k, k + buffer.len())),
        ),
    decreases buffer.len(),
{
    if buffer.len() > 0 {
        let init = buffer.drop_last();
        let last = buffer.last();
        assert(buffer[buffer.len() - 1] == c[k]);
        holds_next(s, c, name, known, k, now);
        assert forall|j: int| 0 <= j < init.len() implies #[trigger] init[j] == c[k + 1
            + init.len() - 1 - j] by {
            assert(init[j] == buffer[j]);
        }
        holds_kept(with_event(s, last, now), c, name, known.insert(k), init, k + 1, now);
        assert(known.insert(k).union(span(k + 1, k + 1 + init.len())) =~= known.union(
            span(k, k + buffer.len()),
        ));
    } else {
        assert(known.union(span(k, k)) =~= known);
    }
}

proof fn chain_place(
    s: StoreModel,
    c: Seq<EnvelopeModel>,
    name: Seq<u8>,
    known: Set<int>,
    i: int,
)
    requires
        holds(s, c, name, known),
        0 <= i < c.len(),
        known.contains(i),
    ensures
        has_event(s.events, event_cid(c[i])),
        0 <= event_index(s.events, event_cid(c[i])) < s.events.len(),
        s.events[event_index(s.events, event_cid(c[i]))] == c[i],
{
    assert(s.events.contains(c[i]));
    let p = choose|p: int| 0 <= p < s.events.len() && s.events[p] == c[i];
    assert(event_cid(s.events[p]) == event_cid(c[i]));
    let q = event_index(s.events, event_cid(c[i]));
    assert(0 <= q < s.events.len() && event_cid(s.events[q]) == event_cid(c[i]));
    if p < q {
        assert(event_cid(s.events[p]) != event_cid(s.events[q]));
    } else if q < p {
        assert(event_cid(s.events[q]) != event_cid(s.events[p]));
    }
}

/// A sequence that holds a piece of the chain is at least as long as the piece.
proof fn piece_fits(events: Seq<EnvelopeModel>, c: Seq<EnvelopeModel>, b: int, t: int)
    requires
        cids_unique(c),
        0 <= b <= t <= c.len(),
        forall|i: int| b <= i < t ==> events.contains(#[trigger] c[i]),
    ensures
        events.len() >= t - b,
    decreases t - b,
{
    if b < t {
        assert(events.contains(c[t - 1]));
        let p = choose|p: int| 0 <= p < events.len() && events[p] == c[t - 1];
        let less = events.remove(p);
        assert forall|i: int| b <= i < t - 1 implies less.contains(#[trigger] c[i]) by {
            assert(events.contains(c[i]));
            let q = choose|q: int| 0 <= q < events.len() && events[q] == c[i];
            assert(event_cid(c[i]) != event_cid(c[t - 1]));
            if q < p {
                assert(less[q] == c[i]);
            } else {
                assert(less[q - 1] == c[i]);
            }
        }
        piece_fits(less, c, b, t - 1);
    }
}

proof fn run_reaches(
    s: StoreModel,
    c: Seq<EnvelopeModel>,
    name: Seq<u8>,
    known: Set<int>,
    b: int,
    j: int,
    steps: nat,
)
    requires
        is_chain(c, name),
        holds(s, c, name, known),
        0 <= b <= j < c.len(),
        steps >= j - b,
        forall|i: int| b <= i <= j ==> #[trigger] known.contains(i),
        b > 0 ==> !known.contains(b - 1),
    ensures
        run_bottom(s.events, event_index(s.events, event_cid(c[j])), steps) == event_index(
            s.events,
            event_cid(c[b]),
        ),
    decreases j - b,
{
    assert(known.contains(j) && known.contains(b));
    chain_place(s, c, name, known, j);
    chain_place(s, c, name, known, b);
    assert(c[j].payload.prev == if j == 0 {
        None
    } else {
        Some(event_cid(c[j - 1]))
    });
    if j == b {
        if b > 0 {
            assert(!has_event(s.events, event_cid(c[b - 1])));
        }
    } else {
        assert(known.contains(j - 1));
        chain_place(s, c, name, known, j - 1);
        run_reaches(s, c, name, known, b, j - 1, (steps - 1) as nat);
        assert(c[b].payload.seq == b && c[j].payload.seq == j);
    }
}

/// Where the store stands: its newest event of the account and the lowest that hangs together
/// with it.
proof fn chain_stands(
    s: StoreModel,
    c: Seq<EnvelopeModel>,
    name: Seq<u8>,
    lo: int,
    hi: int,
)
    requires
        is_chain(c, name),
        0 <= lo < hi <= c.len(),
        holds(s, c, name, span(lo, hi)),
    ensures
        head_event(s, hex_text(name)) == Some(c[hi - 1]),
        bottom_event(s, hex_text(name)) == Some(c[lo]),
{
    let known = span(lo, hi);
    let key = hex_text(name);
    let p = event_index(s.events, event_cid(c[hi - 1]));
    chain_place(s, c, name, known, hi - 1);
    chain_place(s, c, name, known, lo);
    assert(c[hi - 1].payload.author == name);
    assert forall|j: int| 0 <= j < s.events.len() && events_by(key)(#[trigger] s.events[j]) implies {
        &&& s.events[j].payload.seq <= s.events[p].payload.seq
        &&& j < p ==> s.events[j].payload.seq < s.events[p].payload.seq
    } by {
        hex_text_injective(s.events[j].payload.author, name);
        let i = s.events[j].payload.seq as int;
        assert(known.contains(i));
        if i == hi - 1 && j < p {
            assert(event_cid(s.events[j]) != event_cid(s.events[p]));
        }
    }
    assert(is_head_of(s, key, p));
    head_event_at(s, key, p);
    piece_fits(s.events, c, lo, hi);
    assert forall|i: int| lo <= i <= hi - 1 implies #[trigger] known.contains(i) by {}
    run_reaches(s, c, name, known, lo, hi - 1, s.events.len());
}

/// What holds on the way back along the chain from its place `top`, with the block at `k`
/// wanted next.
spec fn walking(
    s: StoreModel,
    m: SessionModel,
    c: Seq<EnvelopeModel>,
    name: Seq<u8>,
    base: Set<int>,
    top: int,
    k: int,
) -> bool {
    let b = m.buffer.len();
    &&& m.record.payload.name == name
    &&& 0 <= k <= top < c.len()
    &&& k + b <= top
    &&& m.cursor == Some(event_cid(c[k]))
    &&& m.expected_seq == k
    &&& m.new_events + b + m.budget <= usize::MAX
    &&& forall|j: int| 0 <= j < b ==> #[trigger] m.buffer[j] == c[k + b - j]
    &&& holds(s, c, name, base.union(span(k + 1 + b, top + 1)))
}

/// Whether a session is the other, further on: the same but for its place, and what it has
/// gathered and kept.
spec fn same_session(a: SessionModel, b: SessionModel) -> bool {
    a.record == b.record && a.chunk == b.chunk && a.floor == b.floor && a.backward == b.backward
}

proof fn flushed_walk(
    s: StoreModel,
    m: SessionModel,
    c: Seq<EnvelopeModel>,
    name: Seq<u8>,
    base: Set<int>,
    top: int,
    k: int,
    now: i64,
)
    requires
        is_chain(c, name),
        0 <= k <= top < c.len(),
        k + m.buffer.len() <= top + 1,
        m.new_events + m.buffer.len() <= usize::MAX,
        forall|j: int|
            0 <= j < m.buffer.len() ==> #[trigger] m.buffer[j] == c[k + m.buffer.len() - 1 - j],
        holds(s, c, name, base.union(span(k + m.buffer.len(), top + 1))),
    ensures
        holds(flushed(s, m, now).0, c, name, base.union(span(k, top + 1))),
        flushed(s, m, now).1.new_events == m.new_events + m.buffer.len(),
{
    let known = base.union(span(k + m.buffer.len(), top + 1));
    holds_kept(s, c, name, known, m.buffer, k, now);
    assert(known.union(span(k, k + m.buffer.len())) =~= base.union(span(k, top + 1)));
}

/// The way back along a chain that the network has, from place `k` down to place `low`, where
/// it ends: at the first event, at one that is known, or at the floor.
proof fn walk_down(
    s: StoreModel,
    m: SessionModel,
    c: Seq<EnvelopeModel>,
    name: Seq<u8>,
    base: Set<int>,
    top: int,
    k: int,
    low: int,
    answers: Seq<Option<Seq<u8>>>,
    now: i64,
) -> (end: (StoreModel, SessionModel, StopModel))
    requires
        is_chain(c, name),
        walking(s, m, c, name, base, top, k),
        0 <= low <= k,
        m.floor <= low,
        forall|i: int| low <= i <= k ==> !#[trigger] base.contains(i),
        low == 0 || base.contains(low - 1) || low == m.floor,
        m.budget >= k - low + 1,
        answers.len() >= k - low + 1,
        forall|j: int| 0 <= j <= k - low ==> #[trigger] answers[j] == Some(envelope_block(c[k - j])),
    ensures
        after_answers((s, NextModel::Fetch(m)), answers, now) == after_answers(
            end_walk(end.0, end.1, end.2, now),
            answers.skip(k - low + 1),
            now,
        ),
        can_continue(end.2),
        same_session(end.1, m),
        end.1.budget == m.budget - (k - low + 1),
        holds(flushed(end.0, end.1, now).0, c, name, base.union(span(low, top + 1))),
        flushed(end.0, end.1, now).1.new_events == m.new_events + m.buffer.len() + (k - low + 1),
    decreases k - low,
{
    let e = c[k];
    let b = m.buffer.len();
    assert(e.payload.seq == k && e.payload.author == name && is_readable(e) && envelope_signed(e));
    assert(e.payload.prev == if k == 0 {
        None
    } else {
        Some(event_cid(c[k - 1]))
    });
    assert(answers[0] == Some(envelope_block(c[k - 0])));
    assert(checked_block(m, m.cursor->Some_0, envelope_block(e)) == Ok::<
        EnvelopeModel,
        crate::sync::model::SyncFault,
    >(e));
    let next = gathered(m, e);
    assert forall|j: int| 0 <= j < next.buffer.len() implies #[trigger] next.buffer[j] == c[k
        + next.buffer.len() - 1 - j] by {
        if j < b {
            assert(next.buffer[j] == m.buffer[j]);
        }
    }
    flushed_walk(s, next, c, name, base, top, k, now);
    let (s2, m2) = if next.buffer.len() >= next.chunk {
        flushed(s, next, now)
    } else {
        (s, next)
    };
    assert(resumed(s, m, answers[0], now) == advance(s2, m2, now));
    let rest = answers.skip(1);
    let known = base.union(span(k + m2.buffer.len(), top + 1));
    assert(holds(s2, c, name, known));
    assert forall|j: int| 0 <= j < m2.buffer.len() implies #[trigger] m2.buffer[j] == c[k
        + m2.buffer.len() - 1 - j] by {}
    flushed_walk(s2, m2, c, name, base, top, k, now);
    if k == low {
        if k > 0 && base.contains(low - 1) {
            assert(known.contains(k - 1));
            chain_place(s2, c, name, known, k - 1);
        }
        let stop = walk_stop(s2, m2)->Some_0;
        assert(walk_stop(s2, m2) is Some && can_continue(stop));
        (s2, m2, stop)
    } else {
        assert(!base.contains(k - 1));
        assert(!known.contains(k - 1));
        assert(!has_event(s2.events, event_cid(c[k - 1])));
        assert(walk_stop(s2, m2) is None);
        assert forall|j: int| 0 <= j <= k - 1 - low implies #[trigger] rest[j] == Some(
            envelope_block(c[k - 1 - j]),
        ) by {
            assert(rest[j] == answers[j + 1]);
        }
        assert(walking(s2, m2, c, name, base, top, k - 1));
        let end = walk_down(s2, m2, c, name, base, top, k - 1, low, rest, now);
        assert(rest.skip(k - 1 - low + 1) =~= answers.skip(k - low + 1));
        end
    }
}

/// Whether a session is over with everything fetched from the floor up to the head.
pub open spec fn caught_up(
    state: (StoreModel, NextModel),
    c: Seq<EnvelopeModel>,
    name: Seq<u8>,
    floor: int,
    new_events: int,
) -> bool {
    &&& state.1 matches NextModel::Done(Ok(o)) && o.new_events == new_events && o.completed
    &&& holds(state.0, c, name, span(floor, c.len() as int))
    &&& account_at(state.0.accounts, hex_text(name)).latest_head_cid == Some(
        cid_text(event_cid(c.last())),
    )
}

proof fn finish_caught_up(
    s: StoreModel,
    m: SessionModel,
    stop: Option<StopModel>,
    c: Seq<EnvelopeModel>,
    name: Seq<u8>,
    now: i64,
)
    requires
        is_chain(c, name),
        m.record.payload.name == name,
        m.floor < c.len(),
        m.record.payload.value == event_cid(c.last()),
        m.record.payload.sequence == c.len() - 1,
        holds(s, c, name, span(m.floor as int, c.len() as int)),
        stop matches Some(x) ==> can_continue(x),
    ensures
        caught_up(finish(s, m, stop, now), c, name, m.floor as int, m.new_events as int),
{
    let n = c.len() as int;
    let known = span(m.floor as int, n);
    chain_stands(s, c, name, m.floor as int, n);
    chain_place(s, c, name, known, n - 1);
    assert(c[n - 1].payload.seq == n - 1);
    assert(c[m.floor as int].payload.seq == m.floor);
    let after = finish(s, m, stop, now).0;
    assert(after.events == s.events);
}

/// The last part of a session: from the lowest event that hangs together down to the floor.
proof fn backward_caught_up(
    s: StoreModel,
    m: SessionModel,
    c: Seq<EnvelopeModel>,
    name: Seq<u8>,
    lo: int,
    answers: Seq<Option<Seq<u8>>>,
    now: i64,
)
    requires
        is_chain(c, name),
        m.record.payload.name == name,
        m.floor <= lo < c.len(),
        m.record.payload.value == event_cid(c.last()),
        m.record.payload.sequence == c.len() - 1,
        m.buffer.len() == 0,
        m.new_events + m.budget <= usize::MAX,
        m.budget >= lo - m.floor,
        holds(s, c, name, span(lo, c.len() as int)),
        answers == blocks_down(c, lo, m.floor as int),
    ensures
        caught_up(
            after_answers(go_backward(s, m, now), answers, now),
            c,
            name,
            m.floor as int,
            m.new_events + (lo - m.floor),
        ),
{
    let n = c.len() as int;
    let floor = m.floor as int;
    let base = span(lo, n);
    chain_stands(s, c, name, lo, n);
    assert(c[lo].payload.seq == lo);
    assert(c[lo].payload.prev == if lo == 0 {
        None
    } else {
        Some(event_cid(c[lo - 1]))
    });
    if lo > floor {
        let next = SessionModel {
            backward: true,
            cursor: c[lo].payload.prev,
            expected_seq: (lo - 1) as u64,
            ..m
        };
        assert(!base.contains(lo - 1));
        assert(!has_event(s.events, event_cid(c[lo - 1])));
        assert(walk_stop(s, next) is None);
        assert(go_backward(s, m, now) == (s, NextModel::Fetch(next)));
        assert(base.union(span(lo, lo)) =~= base);
        assert(walking(s, next, c, name, base, lo - 1, lo - 1));
        assert forall|j: int| 0 <= j <= lo - 1 - floor implies #[trigger] answers[j] == Some(
            envelope_block(c[lo - 1 - j]),
        ) by {}
        let (s2, m2, stop) = walk_down(
            s,
            next,
            c,
            name,
            base,
            lo - 1,
            lo - 1,
            floor,
            answers,
            now,
        );
        let (kept, rest) = flushed(s2, m2, now);
        assert(base.union(span(floor, lo)) =~= span(floor, n));
        finish_caught_up(kept, rest, Some(stop), c, name, now);
        assert(answers.skip(lo - floor) =~= Seq::<Option<Seq<u8>>>::empty());
    } else {
        finish_caught_up(s, m, None, c, name, now);
        assert(answers =~= Seq::<Option<Seq<u8>>>::empty());
    }
}

/// The session catches up at both ends. The store holds the events of the account from place
/// `lo` up to below `hi`, or none; a record points at the head of the account's chain, and the
/// network has the blocks. The session then asks for the events above what is known and for
/// those below it, down to the floor, and takes in all of them: nothing is missing from the
/// floor up, the chain counts as complete, and the head is noted.
pub proof fn session_catches_up(
    s: StoreModel,
    r: RecordModel,
    limits: LimitsModel,
    c: Seq<EnvelopeModel>,
    lo: int,
    hi: int,
    now: i64,
)
    requires
        is_chain(c, r.payload.name),
        c.len() > 0,
        record_signed(r),
        r.payload.value == event_cid(c.last()),
        r.payload.sequence == c.len() - 1,
        !is_stale(record_noted(s, r, now), r),
        ({
            let floor = session_floor(record_noted(s, r, now), r, limits.window);
            &&& floor < c.len()
            &&& floor <= lo <= hi <= c.len()
            &&& lo == hi ==> lo == floor
            &&& limits.budget >= (c.len() - hi) + (lo - floor)
        }),
        holds(s, c, r.payload.name, span(lo, hi)),
    ensures
        ({
            let floor = session_floor(record_noted(s, r, now), r, limits.window) as int;
            let answers = blocks_down(c, c.len() as int, hi) + blocks_down(c, lo, floor);
            caught_up(
                sync_run(s, r, limits, answers, now),
                c,
                r.payload.name,
                floor,
                (c.len() - hi) + (lo - floor),
            )
        }),
{
    let name = r.payload.name;
    let n = c.len() as int;
    let noted = record_noted(s, r, now);
    let floor = session_floor(noted, r, limits.window) as int;
    let above = blocks_down(c, n, hi);
    let below = blocks_down(c, lo, floor);
    let answers = above + below;
    let base = span(lo, hi);
    let forks = (noted.forks.len() - s.forks.len()) as usize;
    let m = new_session(noted, r, limits, forks);
    assert(noted.events == s.events);
    assert(holds(noted, c, name, base));
    if hi == n {
        chain_place(noted, c, name, base, n - 1);
        assert(answers =~= below);
        backward_caught_up(noted, m, c, name, lo, below, now);
    } else {
        assert(!base.contains(n - 1));
        assert(!has_event(noted.events, event_cid(c[n - 1])));
        assert(walk_stop(noted, m) is None);
        assert(base.union(span(n, n)) =~= base);
        assert(walking(noted, m, c, name, base, n - 1, n - 1));
        assert forall|j: int| 0 <= j <= n - 1 - hi implies #[trigger] answers[j] == Some(
            envelope_block(c[n - 1 - j]),
        ) by {
            assert(answers[j] == above[j]);
        }
        let (s2, m2, stop) = walk_down(
            noted,
            m,
            c,
            name,
            base,
            n - 1,
            n - 1,
            hi,
            answers,
            now,
        );
        let (kept, rest) = flushed(s2, m2, now);
        assert(base.union(span(hi, n)) =~= span(lo, n));
        assert(answers.skip(n - hi) =~= below);
        backward_caught_up(kept, rest, c, name, lo, below, now);
    }
}

} // verus!
