//! What holds of every session, whatever the network answers.

use crate::event::{envelope_signed, event_cid, EnvelopeModel};
use crate::head::{record_signed, RecordModel};
use crate::projection::has_event;
use crate::store::model::{with_event, StoreModel};
use crate::sync::model::{
    advance, begun, bottom_event, checked_block, end_walk, finish, flushed, gathered, go_backward,
    head_event, is_stale, keep_events, new_session, record_noted, resumed, session_floor,
    walk_stop, LimitsModel, NextModel, OutcomeModel, SessionModel, StopModel, SyncFault,
};
use crate::util::hex_text;
use vstd::prelude::*;

verus! {

/// A session after a list of answers; answers after its end are not looked at.
pub open spec fn after_answers(
    state: (StoreModel, NextModel),
    answers: Seq<Option<Seq<u8>>>,
    now: i64,
) -> (StoreModel, NextModel)
    decreases answers.len(),
{
    if answers.len() == 0 {
        state
    } else {
        match state.1 {
            NextModel::Fetch(m) => after_answers(
                resumed(state.0, m, answers[0], now),
                answers.skip(1),
                now,
            ),
            NextModel::Done(_) => state,
        }
    }
}

/// A session from its record through a list of answers.
pub open spec fn sync_run(
    s: StoreModel,
    r: RecordModel,
    limits: LimitsModel,
    answers: Seq<Option<Seq<u8>>>,
    now: i64,
) -> (StoreModel, NextModel) {
    after_answers(begun(s, r, limits, now), answers, now)
}

/// Whether an event is one that a session for the record may take in: its author is the
/// account of the record and signed it, its position is not below the floor, and it has a
/// predecessor unless it is the first.
pub open spec fn may_take_in(e: EnvelopeModel, r: RecordModel, floor: u64) -> bool {
    &&& envelope_signed(e)
    &&& e.payload.author == r.payload.name
    &&& e.payload.seq >= floor
    &&& e.payload.seq == 0 <==> e.payload.prev is None
}

/// Whether the events grew by at most `count` that a session for the record may take in, and
/// otherwise stayed as they were.
pub open spec fn grown_by(
    before: Seq<EnvelopeModel>,
    after: Seq<EnvelopeModel>,
    r: RecordModel,
    floor: u64,
    count: int,
) -> bool {
    &&& before.len() <= after.len() <= before.len() + count
    &&& after.take(before.len() as int) == before
    &&& forall|i: int|
        before.len() <= i < after.len() ==> may_take_in(#[trigger] after[i], r, floor)
}

/// What holds of a session from its record on.
pub open spec fn session_inv(
    base: StoreModel,
    r: RecordModel,
    limits: LimitsModel,
    s: StoreModel,
    m: SessionModel,
) -> bool {
    let floor = session_floor(base, r, limits.window);
    &&& m.record == r
    &&& m.floor == floor
    &&& m.chunk == limits.chunk
    &&& m.new_events + m.buffer.len() + m.budget <= limits.budget
    &&& grown_by(base.events, s.events, r, floor, m.new_events as int)
    &&& forall|i: int| 0 <= i < m.buffer.len() ==> may_take_in(#[trigger] m.buffer[i], r, floor)
    &&& s.heads == base.heads
    &&& s.follows == base.follows
    &&& s.sync == base.sync
}

/// What holds at the end of a session.
pub open spec fn end_inv(
    base: StoreModel,
    r: RecordModel,
    limits: LimitsModel,
    s: StoreModel,
    result: Result<OutcomeModel, SyncFault>,
) -> bool {
    let floor = session_floor(base, r, limits.window);
    let key = hex_text(r.payload.name);
    &&& grown_by(base.events, s.events, r, floor, limits.budget as int)
    &&& s.heads == base.heads
    &&& s.follows == base.follows
    &&& s.sync.dom().contains(key)
    &&& s.sync[key].window_floor_seq == floor
    &&& forall|k: Seq<char>| #[trigger]
        base.sync.dom().contains(k) && k != key ==> s.sync.dom().contains(k) && s.sync[k]
            == base.sync[k]
    &&& s.sync[key].completed <==> (bottom_event(s, key) matches Some(b) && b.payload.seq <= floor)
    &&& result matches Ok(o) ==> o.completed == s.sync[key].completed && o.new_events
        <= limits.budget && s.events.len() - base.events.len() <= o.new_events
}

/// What holds of a session wherever it is.
pub open spec fn state_inv(
    base: StoreModel,
    r: RecordModel,
    limits: LimitsModel,
    state: (StoreModel, NextModel),
) -> bool {
    match state.1 {
        NextModel::Fetch(m) => session_inv(base, r, limits, state.0, m) && walk_stop(state.0, m)
            is None,
        NextModel::Done(result) => end_inv(base, r, limits, state.0, result),
    }
}

proof fn with_event_grows(
    before: Seq<EnvelopeModel>,
    s: StoreModel,
    e: EnvelopeModel,
    now: i64,
    r: RecordModel,
    floor: u64,
    count: int,
)
    requires
        grown_by(before, s.events, r, floor, count),
        may_take_in(e, r, floor),
    ensures
        grown_by(before, with_event(s, e, now).events, r, floor, count + 1),
        with_event(s, e, now).heads == s.heads,
        with_event(s, e, now).follows == s.follows,
        with_event(s, e, now).sync == s.sync,
        has_event(with_event(s, e, now).events, event_cid(e)),
{
    let after = with_event(s, e, now).events;
    if !has_event(s.events, event_cid(e)) {
        assert(after[s.events.len() as int] == e);
        assert(after.take(before.len() as int) =~= s.events.take(before.len() as int));
        assert forall|i: int| before.len() <= i < after.len() implies may_take_in(
            #[trigger] after[i],
            r,
            floor,
        ) by {
            if i < s.events.len() {
                assert(after[i] == s.events[i]);
            }
        }
    }
}

proof fn keep_events_grows(
    before: Seq<EnvelopeModel>,
    s: StoreModel,
    buffer: Seq<EnvelopeModel>,
    now: i64,
    r: RecordModel,
    floor: u64,
    count: int,
)
    requires
        grown_by(before, s.events, r, floor, count),
        forall|i: int| 0 <= i < buffer.len() ==> may_take_in(#[trigger] buffer[i], r, floor),
    ensures
        grown_by(before, keep_events(s, buffer, now).events, r, floor, count + buffer.len()),
        keep_events(s, buffer, now).heads == s.heads,
        keep_events(s, buffer, now).follows == s.follows,
        keep_events(s, buffer, now).sync == s.sync,
    decreases buffer.len(),
{
    if buffer.len() > 0 {
        let init = buffer.drop_last();
        assert(may_take_in(buffer[buffer.len() - 1], r, floor));
        with_event_grows(before, s, buffer.last(), now, r, floor, count);
        assert forall|i: int| 0 <= i < init.len() implies may_take_in(
            #[trigger] init[i],
            r,
            floor,
        ) by {
            assert(init[i] == buffer[i]);
        }
        keep_events_grows(
            before,
            with_event(s, buffer.last(), now),
            init,
            now,
            r,
            floor,
            count + 1,
        );
    }
}

proof fn flush_keeps_inv(
    base: StoreModel,
    r: RecordModel,
    limits: LimitsModel,
    s: StoreModel,
    m: SessionModel,
    now: i64,
)
    requires
        session_inv(base, r, limits, s, m),
    ensures
        session_inv(base, r, limits, flushed(s, m, now).0, flushed(s, m, now).1),
{
    let floor = session_floor(base, r, limits.window);
    keep_events_grows(base.events, s, m.buffer, now, r, floor, m.new_events as int);
}

proof fn finish_gives_end(
    base: StoreModel,
    r: RecordModel,
    limits: LimitsModel,
    s: StoreModel,
    m: SessionModel,
    stop: Option<StopModel>,
    now: i64,
)
    requires
        session_inv(base, r, limits, s, m),
        m.buffer.len() == 0,
    ensures
        state_inv(base, r, limits, finish(s, m, stop, now)),
{
    let key = hex_text(r.payload.name);
    let after = finish(s, m, stop, now).0;
    same_events_same_bottom(s, after, key);
}

/// Where the chain stands is a matter of the events alone.
proof fn same_events_same_bottom(a: StoreModel, b: StoreModel, key: Seq<char>)
    requires
        a.events == b.events,
    ensures
        bottom_event(a, key) == bottom_event(b, key),
        head_event(a, key) == head_event(b, key),
{
    assert(forall|i: int|
        crate::store::model::is_head_of(a, key, i) == crate::store::model::is_head_of(b, key, i));
    if exists|i: int| crate::store::model::is_head_of(a, key, i) {
        let i = choose|i: int| crate::store::model::is_head_of(a, key, i);
        crate::sync::model::head_event_at(a, key, i);
        crate::sync::model::head_event_at(b, key, i);
    }
}

proof fn backward_keeps_inv(
    base: StoreModel,
    r: RecordModel,
    limits: LimitsModel,
    s: StoreModel,
    m: SessionModel,
    now: i64,
)
    requires
        session_inv(base, r, limits, s, m),
        m.buffer.len() == 0,
    ensures
        state_inv(base, r, limits, go_backward(s, m, now)),
{
    let key = hex_text(r.payload.name);
    match bottom_event(s, key) {
        Some(b) => {
            if b.payload.seq > m.floor && b.payload.prev is Some {
                let next = SessionModel {
                    backward: true,
                    cursor: b.payload.prev,
                    expected_seq: (b.payload.seq - 1) as u64,
                    ..m
                };
                match walk_stop(s, next) {
                    Some(stop) => {
                        finish_gives_end(base, r, limits, s, next, Some(stop), now);
                    },
                    None => {},
                }
            } else {
                finish_gives_end(base, r, limits, s, m, None, now);
            }
        },
        None => {
            finish_gives_end(base, r, limits, s, m, None, now);
        },
    }
}

proof fn end_walk_keeps_inv(
    base: StoreModel,
    r: RecordModel,
    limits: LimitsModel,
    s: StoreModel,
    m: SessionModel,
    stop: StopModel,
    now: i64,
)
    requires
        session_inv(base, r, limits, s, m),
    ensures
        state_inv(base, r, limits, end_walk(s, m, stop, now)),
{
    flush_keeps_inv(base, r, limits, s, m, now);
    let (kept, rest) = flushed(s, m, now);
    if crate::sync::model::can_continue(stop) && !m.backward {
        backward_keeps_inv(base, r, limits, kept, rest, now);
    } else {
        finish_gives_end(base, r, limits, kept, rest, Some(stop), now);
    }
}

proof fn advance_keeps_inv(
    base: StoreModel,
    r: RecordModel,
    limits: LimitsModel,
    s: StoreModel,
    m: SessionModel,
    now: i64,
)
    requires
        session_inv(base, r, limits, s, m),
    ensures
        state_inv(base, r, limits, advance(s, m, now)),
{
    if let Some(stop) = walk_stop(s, m) {
        end_walk_keeps_inv(base, r, limits, s, m, stop, now);
    }
}

proof fn resume_keeps_inv(
    base: StoreModel,
    r: RecordModel,
    limits: LimitsModel,
    s: StoreModel,
    m: SessionModel,
    answer: Option<Seq<u8>>,
    now: i64,
)
    requires
        session_inv(base, r, limits, s, m),
        walk_stop(s, m) is None,
    ensures
        state_inv(base, r, limits, resumed(s, m, answer, now)),
{
    match answer {
        None => {
            end_walk_keeps_inv(base, r, limits, s, m, StopModel::Unavailable, now);
        },
        Some(block) => {
            match checked_block(m, m.cursor->Some_0, block) {
                Err(fault) => {
                    end_walk_keeps_inv(
                        base,
                        r,
                        limits,
                        s,
                        SessionModel { budget: (m.budget - 1) as usize, ..m },
                        StopModel::Invalid(fault),
                        now,
                    );
                },
                Ok(e) => {
                    let next = gathered(m, e);
                    let floor = session_floor(base, r, limits.window);
                    assert(may_take_in(e, r, floor));
                    assert forall|i: int| 0 <= i < next.buffer.len() implies may_take_in(
                        #[trigger] next.buffer[i],
                        r,
                        floor,
                    ) by {
                        if i < m.buffer.len() {
                            assert(next.buffer[i] == m.buffer[i]);
                        }
                    }
                    if next.buffer.len() >= next.chunk {
                        flush_keeps_inv(base, r, limits, s, next, now);
                        let (kept, rest) = flushed(s, next, now);
                        advance_keeps_inv(base, r, limits, kept, rest, now);
                    } else {
                        advance_keeps_inv(base, r, limits, s, next, now);
                    }
                },
            }
        },
    }
}

proof fn answers_keep_inv(
    base: StoreModel,
    r: RecordModel,
    limits: LimitsModel,
    state: (StoreModel, NextModel),
    answers: Seq<Option<Seq<u8>>>,
    now: i64,
)
    requires
        state_inv(base, r, limits, state),
    ensures
        state_inv(base, r, limits, after_answers(state, answers, now)),
    decreases answers.len(),
{
    if answers.len() > 0 {
        if let NextModel::Fetch(m) = state.1 {
            resume_keeps_inv(base, r, limits, state.0, m, answers[0], now);
            answers_keep_inv(
                base,
                r,
                limits,
                resumed(state.0, m, answers[0], now),
                answers.skip(1),
                now,
            );
        }
    }
}

/// A record that its account did not sign is refused and leaves the store as it was.
pub proof fn forged_record_changes_nothing(
    s: StoreModel,
    r: RecordModel,
    limits: LimitsModel,
    answers: Seq<Option<Seq<u8>>>,
    now: i64,
)
    requires
        !record_signed(r),
    ensures
        sync_run(s, r, limits, answers, now) == (
            s,
            NextModel::Done(Err(SyncFault::InvalidSignature)),
        ),
{
}

/// A record that tells nothing new asks the network for nothing and takes in nothing.
pub proof fn stale_record_fetches_nothing(
    s: StoreModel,
    r: RecordModel,
    limits: LimitsModel,
    answers: Seq<Option<Seq<u8>>>,
    now: i64,
)
    requires
        record_signed(r),
        is_stale(record_noted(s, r, now), r),
    ensures
        sync_run(s, r, limits, answers, now).0 == record_noted(s, r, now),
        sync_run(s, r, limits, answers, now).1 matches NextModel::Done(Ok(o)) && o.new_events == 0
            && o.completed,
{
}

/// Whatever the network answers, a session takes in only events that the account of its
/// record signed, each with a position not below the floor, and at most as many as it may
/// fetch. Events that were there stay, and so do the head records, the follows and the
/// progress of other accounts. At the end the floor is noted, and the chain counts as
/// complete if and only if the events that hang together reach the floor.
pub proof fn session_takes_in_only_good_events(
    s: StoreModel,
    r: RecordModel,
    limits: LimitsModel,
    answers: Seq<Option<Seq<u8>>>,
    now: i64,
)
    requires
        record_signed(r),
        !is_stale(record_noted(s, r, now), r),
    ensures
        state_inv(record_noted(s, r, now), r, limits, sync_run(s, r, limits, answers, now)),
{
    let noted = record_noted(s, r, now);
    let forks = (noted.forks.len() - s.forks.len()) as usize;
    let m = new_session(noted, r, limits, forks);
    assert(noted.events.take(noted.events.len() as int) =~= noted.events);
    assert(session_inv(noted, r, limits, noted, m));
    if has_event(noted.events, r.payload.value) {
        backward_keeps_inv(noted, r, limits, noted, m, now);
    } else {
        advance_keeps_inv(noted, r, limits, noted, m, now);
    }
    answers_keep_inv(noted, r, limits, begun(s, r, limits, now), answers, now);
}

/// How many more answers a session can wait for.
pub open spec fn answers_left(next: NextModel) -> int {
    match next {
        NextModel::Fetch(m) => m.budget as int,
        NextModel::Done(_) => 0,
    }
}

proof fn resume_uses_budget(s: StoreModel, m: SessionModel, answer: Option<Seq<u8>>, now: i64)
    requires
        m.budget > 0,
    ensures
        answers_left(resumed(s, m, answer, now).1) < m.budget,
{
    match answer {
        None => {
            end_walk_uses_budget(s, m, StopModel::Unavailable, now);
        },
        Some(block) => {
            match checked_block(m, m.cursor->Some_0, block) {
                Err(fault) => {
                    let next = SessionModel { budget: (m.budget - 1) as usize, ..m };
                    end_walk_uses_budget(s, next, StopModel::Invalid(fault), now);
                },
                Ok(e) => {
                    let next = gathered(m, e);
                    if next.buffer.len() >= next.chunk {
                        let (kept, rest) = flushed(s, next, now);
                        if let Some(stop) = walk_stop(kept, rest) {
                            end_walk_uses_budget(kept, rest, stop, now);
                        }
                    } else {
                        if let Some(stop) = walk_stop(s, next) {
                            end_walk_uses_budget(s, next, stop, now);
                        }
                    }
                },
            }
        },
    }
}

proof fn end_walk_uses_budget(s: StoreModel, m: SessionModel, stop: StopModel, now: i64)
    ensures
        answers_left(end_walk(s, m, stop, now).1) <= m.budget,
        !crate::sync::model::can_continue(stop) ==> end_walk(s, m, stop, now).1 is Done,
{
}

proof fn waiting_sessions_have_budget(
    state: (StoreModel, NextModel),
    answers: Seq<Option<Seq<u8>>>,
    now: i64,
)
    requires
        state.1 matches NextModel::Fetch(m) ==> m.budget > 0,
        answers.len() >= answers_left(state.1),
    ensures
        after_answers(state, answers, now).1 is Done,
    decreases answers.len(),
{
    if let NextModel::Fetch(m) = state.1 {
        resume_uses_budget(state.0, m, answers[0], now);
        let next = resumed(state.0, m, answers[0], now);
        resume_waits_with_budget(state.0, m, answers[0], now);
        waiting_sessions_have_budget(next, answers.skip(1), now);
    }
}

proof fn resume_waits_with_budget(s: StoreModel, m: SessionModel, answer: Option<Seq<u8>>, now: i64)
    ensures
        resumed(s, m, answer, now).1 matches NextModel::Fetch(n) ==> n.budget > 0,
{
}

/// A session asks for at most as many blocks as it may fetch: by then it is over.
pub proof fn session_ends_within_budget(
    s: StoreModel,
    r: RecordModel,
    limits: LimitsModel,
    answers: Seq<Option<Seq<u8>>>,
    now: i64,
)
    requires
        answers.len() >= limits.budget,
    ensures
        sync_run(s, r, limits, answers, now).1 is Done,
{
    let start = begun(s, r, limits, now);
    assert(answers_left(start.1) <= limits.budget);
    assert(start.1 matches NextModel::Fetch(m) ==> m.budget > 0);
    waiting_sessions_have_budget(start, answers, now);
}

pub(crate) proof fn keep_events_keeps_all(s: StoreModel, buffer: Seq<EnvelopeModel>, now: i64, cid: Seq<u8>)
    requires
        has_event(s.events, cid) || exists|i: int|
            0 <= i < buffer.len() && event_cid(#[trigger] buffer[i]) == cid,
    ensures
        has_event(keep_events(s, buffer, now).events, cid),
    decreases buffer.len(),
{
    if buffer.len() > 0 {
        let init = buffer.drop_last();
        let e = buffer.last();
        let next = with_event(s, e, now);
        if has_event(s.events, cid) {
            let i = choose|i: int| 0 <= i < s.events.len() && event_cid(#[trigger] s.events[i]) == cid;
            assert(event_cid(next.events[i]) == cid);
        } else {
            let i = choose|i: int|
                0 <= i < buffer.len() && event_cid(#[trigger] buffer[i]) == cid;
            if i < init.len() {
                assert(event_cid(init[i]) == cid);
            } else if !has_event(s.events, event_cid(e)) {
                assert(next.events[s.events.len() as int] == e);
                assert(has_event(next.events, cid));
            }
        }
        keep_events_keeps_all(next, init, now, cid);
    }
}

/// What was fetched and checked is kept though the next block cannot be had.
pub proof fn missing_block_keeps_progress(s: StoreModel, m: SessionModel, i: int, now: i64)
    requires
        0 <= i < m.buffer.len(),
    ensures
        resumed(s, m, None, now).1 is Done,
        has_event(resumed(s, m, None, now).0.events, event_cid(m.buffer[i])),
{
    keep_events_keeps_all(s, m.buffer, now, event_cid(m.buffer[i]));
}

/// What was fetched and checked is kept though the next block is bad, and the session says
/// what is wrong with it.
pub proof fn bad_block_keeps_progress(
    s: StoreModel,
    m: SessionModel,
    block: Seq<u8>,
    fault: SyncFault,
    i: int,
    now: i64,
)
    requires
        m.cursor is Some,
        checked_block(m, m.cursor->Some_0, block) == Err::<EnvelopeModel, SyncFault>(fault),
        0 <= i < m.buffer.len(),
    ensures
        resumed(s, m, Some(block), now).1 == NextModel::Done(Err(fault)),
        has_event(resumed(s, m, Some(block), now).0.events, event_cid(m.buffer[i])),
{
    keep_events_keeps_all(s, m.buffer, now, event_cid(m.buffer[i]));
}

/// Once events of an account are there, the floor stays as it was noted, whatever records
/// come.
pub proof fn floor_is_frozen(s: StoreModel, r: RecordModel, window: u64)
    requires
        s.sync.dom().contains(hex_text(r.payload.name)),
        head_event(s, hex_text(r.payload.name)) is Some,
    ensures
        session_floor(s, r, window) == s.sync[hex_text(r.payload.name)].window_floor_seq,
{
}

} // verus!
