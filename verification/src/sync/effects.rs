//! What a session does, said of the fields of records, events and answers.

use crate::cid::cid_text;
use crate::dag_cbor::dag_cbor_bytes;
use crate::event::{
    envelope_block, envelope_of_block, event_cid, payload_tree, EnvelopeModel,
};
use crate::head::{record_block, record_payload_tree, record_signed, RecordModel};
use crate::identity::{ed25519_key_valid, ed25519_verifies};
use crate::projection::{has_event, is_newest_among, newest_exists, newest_is_unique};
use crate::store::effects::{
    event_is_kept_once, known_forks_stay, newest_event_has_highest_position, newest_record_is_kept,
    record_name_follows_sequence,
};
use crate::store::model::{account_at, events_by, is_head_of, with_event, with_record, StoreModel};
use crate::sync::convergence::{blocks_down, holds, session_catches_up, span};
use crate::sync::laws::{after_answers, keep_events_keeps_all, sync_run};
use crate::sync::model::{
    begun, bottom_event, checked_block, end_walk, finish, flushed, gathered, head_event,
    head_event_at, is_stale, keep_events, new_session, record_noted, resumed, session_floor,
    walk_stop, LimitsModel, NextModel, OutcomeModel, SessionModel,
    StopModel, SyncFault,
};
use crate::sync::{SYNC_BUDGET, SYNC_CHUNK, SYNC_WINDOW};
use crate::util::{hex_text, hex_text_injective};
use vstd::prelude::*;

verus! {

// ---------------------------------------------------------------------------
// The floor
// ---------------------------------------------------------------------------

/// Of a chain that is not known yet exactly the newest positions are wanted, as many as the
/// window allows: all of them if the chain is no longer than the window. Only a window of
/// nothing at the last position there is cannot be expressed.
pub proof fn unknown_chain_is_wanted_to_the_window(s: StoreModel, r: RecordModel, window: u64)
    requires
        !s.sync.dom().contains(hex_text(r.payload.name)),
        window > 0 || r.payload.sequence < u64::MAX,
    ensures
        ({
            let floor = session_floor(s, r, window);
            let length = r.payload.sequence + 1;
            &&& length <= window ==> length - floor == length
            &&& length > window ==> length - floor == window
        }),
{
}

/// Once a floor was noted it never falls. With events of the account it stays; without any it
/// rises to what the record and the window ask for.
pub proof fn noted_floor_never_falls(s: StoreModel, r: RecordModel, window: u64)
    requires
        s.sync.dom().contains(hex_text(r.payload.name)),
        window > 0 || r.payload.sequence < u64::MAX,
    ensures
        ({
            let floor = session_floor(s, r, window);
            let noted = s.sync[hex_text(r.payload.name)].window_floor_seq;
            let length = r.payload.sequence + 1;
            &&& (exists|j: int|
                0 <= j < s.events.len() && (#[trigger] s.events[j]).payload.author
                    == r.payload.name) ==> floor == noted
            &&& (forall|j: int|
                0 <= j < s.events.len() ==> (#[trigger] s.events[j]).payload.author
                    != r.payload.name) ==> {
                &&& floor >= noted
                &&& floor + window >= length
                &&& floor == noted || floor + window == length
            }
        }),
{
    let key = hex_text(r.payload.name);
    if exists|j: int|
        0 <= j < s.events.len() && (#[trigger] s.events[j]).payload.author == r.payload.name {
        let j = choose|j: int|
            0 <= j < s.events.len() && (#[trigger] s.events[j]).payload.author == r.payload.name;
        newest_exists(s.events, events_by(key), j);
        let i = choose|i: int|
            is_newest_among(s.events, events_by(key), i);
        assert(is_head_of(s, key, i));
        head_event_at(s, key, i);
    }
    if head_event(s, key) is Some {
        let i = choose|i: int| is_head_of(s, key, i);
        hex_text_injective(s.events[i].payload.author, r.payload.name);
    }
}

/// The limits of an ordinary session: the newest five hundred events are wanted, a hundred are
/// gathered at a time, and a thousand blocks are fetched at most.
pub proof fn usual_limits()
    ensures
        SYNC_WINDOW == 500,
        SYNC_CHUNK == 100,
        SYNC_BUDGET == 1_000,
{
}

// ---------------------------------------------------------------------------
// Records
// ---------------------------------------------------------------------------

/// A record counts as signed if and only if its signature over its payload verifies under the
/// key that it names.
pub proof fn signed_record_verifies(r: RecordModel)
    ensures
        record_signed(r) <==> ed25519_key_valid(r.payload.name) && ed25519_verifies(
            r.payload.name,
            dag_cbor_bytes(record_payload_tree(r.payload)),
            r.signature,
        ),
{
}

/// What a good record leaves in the store, whatever becomes of its chain: the record if it is
/// the newest, the name in it if it has one and none as new is noted, and nothing else.
pub proof fn record_leaves_pointer_and_name(s: StoreModel, r: RecordModel, now: i64)
    ensures
        ({
            let key = hex_text(r.payload.name);
            let after = record_noted(s, r, now);
            let beaten = s.heads.dom().contains(key) && (s.heads[key].sequence > r.payload.sequence
                || (s.heads[key].sequence == r.payload.sequence && s.heads[key].validity
                >= r.payload.validity));
            let named = s.accounts.dom().contains(key) && (s.accounts[key].snapshot_seq matches Some(
                n,
            ) && n >= r.payload.sequence);
            &&& beaten ==> after.heads == s.heads
            &&& !beaten ==> after.heads.dom().contains(key) && after.heads[key].record_bytes
                == record_block(r) && after.heads[key].sequence == r.payload.sequence
            &&& r.payload.display_name.len() > 0 && !named ==> after.accounts.dom().contains(key)
                && after.accounts[key].snapshot_display_name == r.payload.display_name
            &&& r.payload.display_name.len() == 0 || named ==> after.accounts == s.accounts
            &&& after.events == s.events
            &&& after.posts == s.posts
            &&& after.sync == s.sync
            &&& after.follows == s.follows
        }),
{
    let key = hex_text(r.payload.name);
    newest_record_is_kept(s, r, now);
    record_name_follows_sequence(
        with_record(s, r, now),
        key,
        r.payload.sequence,
        r.payload.display_name,
    );
}

/// A signed record whose head is not there starts a session at that head, with the position
/// that the record gives, unless that is below the floor or nothing may be fetched.
pub proof fn good_record_asks_for_its_head(
    s: StoreModel,
    r: RecordModel,
    limits: LimitsModel,
    now: i64,
)
    requires
        ed25519_key_valid(r.payload.name),
        ed25519_verifies(
            r.payload.name,
            dag_cbor_bytes(record_payload_tree(r.payload)),
            r.signature,
        ),
        forall|j: int|
            0 <= j < s.events.len() ==> event_cid(#[trigger] s.events[j]) != r.payload.value,
        limits.budget > 0,
        session_floor(s, r, limits.window) <= r.payload.sequence,
    ensures
        begun(s, r, limits, now).1 matches NextModel::Fetch(m) && {
            &&& m.record == r
            &&& m.cursor == Some(r.payload.value)
            &&& m.expected_seq == r.payload.sequence
            &&& m.floor == session_floor(s, r, limits.window)
            &&& m.budget == limits.budget
            &&& m.chunk == limits.chunk
            &&& m.buffer == Seq::<EnvelopeModel>::empty()
            &&& m.new_events == 0
            &&& !m.backward
        },
        begun(s, r, limits, now).0.events == s.events,
{
    let noted = record_noted(s, r, now);
    let key = hex_text(r.payload.name);
    assert(noted.events == s.events && noted.sync == s.sync);
    assert(forall|i: int| is_head_of(noted, key, i) == is_head_of(s, key, i));
    if head_event(s, key) is Some {
        let i = choose|i: int| is_head_of(s, key, i);
        head_event_at(s, key, i);
        head_event_at(noted, key, i);
    }
}

/// A record is passed over only if an event of its account with the same or a higher position
/// is there, its head is there, and the chain was fetched whole; and then it is.
pub proof fn only_old_news_is_passed_over(s: StoreModel, r: RecordModel)
    ensures
        is_stale(s, r) <==> {
            &&& exists|j: int|
                0 <= j < s.events.len() && (#[trigger] s.events[j]).payload.author
                    == r.payload.name && s.events[j].payload.seq >= r.payload.sequence
            &&& exists|j: int|
                0 <= j < s.events.len() && event_cid(#[trigger] s.events[j]) == r.payload.value
            &&& s.sync.dom().contains(hex_text(r.payload.name))
            &&& s.sync[hex_text(r.payload.name)].completed
        },
{
    let key = hex_text(r.payload.name);
    if exists|j: int|
        0 <= j < s.events.len() && (#[trigger] s.events[j]).payload.author == r.payload.name
            && s.events[j].payload.seq >= r.payload.sequence {
        let j = choose|j: int|
            0 <= j < s.events.len() && (#[trigger] s.events[j]).payload.author == r.payload.name
                && s.events[j].payload.seq >= r.payload.sequence;
        newest_exists(s.events, events_by(key), j);
        let i = choose|i: int|
            is_newest_among(s.events, events_by(key), i);
        assert(is_head_of(s, key, i));
        head_event_at(s, key, i);
        newest_event_has_highest_position(s, key, i);
    }
    if head_event(s, key) is Some {
        let i = choose|i: int| is_head_of(s, key, i);
        hex_text_injective(s.events[i].payload.author, r.payload.name);
        head_event_at(s, key, i);
    }
}

// ---------------------------------------------------------------------------
// Blocks
// ---------------------------------------------------------------------------

/// A block is taken if and only if it holds an event whose signature over its payload verifies,
/// by the account of the record, at the position that is expected, with a predecessor unless it
/// is the first.
pub proof fn taken_block_is_checked(
    m: SessionModel,
    cid: Seq<u8>,
    block: Seq<u8>,
    e: EnvelopeModel,
)
    ensures
        checked_block(m, cid, block) == Ok::<EnvelopeModel, SyncFault>(e) <==> {
            &&& envelope_of_block(block) == Ok::<EnvelopeModel, Seq<char>>(e)
            &&& ed25519_key_valid(e.payload.author)
            &&& ed25519_verifies(
                e.payload.author,
                dag_cbor_bytes(payload_tree(e.payload)),
                e.signature,
            )
            &&& e.payload.author == m.record.payload.name
            &&& e.payload.seq == m.expected_seq
            &&& e.payload.seq == 0 <==> e.payload.prev is None
        },
{
}

/// What is said of a block that is not taken: that it does not decode, else that its signature
/// is bad, else whose it is not, else where it does not belong, else that its predecessor is
/// wrong.
pub proof fn refused_block_says_why(m: SessionModel, cid: Seq<u8>, block: Seq<u8>)
    ensures
        match envelope_of_block(block) {
            Err(message) => checked_block(m, cid, block) == Err::<EnvelopeModel, SyncFault>(
                SyncFault::Decode(message),
            ),
            Ok(e) => {
                let good = ed25519_key_valid(e.payload.author) && ed25519_verifies(
                    e.payload.author,
                    dag_cbor_bytes(payload_tree(e.payload)),
                    e.signature,
                );
                let ours = e.payload.author == m.record.payload.name;
                let placed = e.payload.seq == m.expected_seq;
                &&& !good ==> checked_block(m, cid, block) == Err::<EnvelopeModel, SyncFault>(
                    SyncFault::InvalidSignature,
                )
                &&& good && !ours ==> checked_block(m, cid, block) == Err::<
                    EnvelopeModel,
                    SyncFault,
                >(SyncFault::AuthorMismatch { cid })
                &&& good && ours && !placed ==> checked_block(m, cid, block) == Err::<
                    EnvelopeModel,
                    SyncFault,
                >(
                    SyncFault::SeqMismatch {
                        cid,
                        expected: m.expected_seq,
                        got: e.payload.seq,
                    },
                )
                &&& good && ours && placed && (e.payload.seq == 0) != (e.payload.prev is None)
                    ==> checked_block(m, cid, block) == Err::<EnvelopeModel, SyncFault>(
                    SyncFault::BrokenChain { cid },
                )
            },
        },
{
}

/// After a good block the session asks for its predecessor, one position lower, as long as that
/// is not there yet, is not below the floor, and something may still be fetched. Events are
/// gathered until there are enough to be kept.
pub proof fn good_block_leads_to_its_predecessor(
    s: StoreModel,
    m: SessionModel,
    block: Seq<u8>,
    e: EnvelopeModel,
    p: Seq<u8>,
    now: i64,
)
    requires
        m.cursor is Some,
        checked_block(m, m.cursor->0, block) == Ok::<EnvelopeModel, SyncFault>(e),
        e.payload.prev == Some(p),
        forall|j: int| 0 <= j < s.events.len() ==> event_cid(#[trigger] s.events[j]) != p,
        m.expected_seq > m.floor,
        m.budget > 1,
        m.buffer.len() + 1 < m.chunk,
    ensures
        resumed(s, m, Some(block), now) == (
            s,
            NextModel::Fetch(
                SessionModel {
                    cursor: Some(p),
                    expected_seq: (m.expected_seq - 1) as u64,
                    budget: (m.budget - 1) as usize,
                    buffer: m.buffer.push(e),
                    ..m
                },
            ),
        ),
{
}

/// When enough events are gathered they are all kept, the new one among them, and the session
/// goes on with none in hand.
pub proof fn full_chunk_is_kept(
    s: StoreModel,
    m: SessionModel,
    block: Seq<u8>,
    e: EnvelopeModel,
    now: i64,
    i: int,
)
    requires
        m.cursor is Some,
        checked_block(m, m.cursor->0, block) == Ok::<EnvelopeModel, SyncFault>(e),
        m.buffer.len() + 1 >= m.chunk,
        0 <= i <= m.buffer.len(),
    ensures
        ({
            let (after, next) = resumed(s, m, Some(block), now);
            &&& exists|j: int|
                0 <= j < after.events.len() && event_cid(#[trigger] after.events[j]) == event_cid(
                    m.buffer.push(e)[i],
                )
            &&& next matches NextModel::Fetch(n) ==> n.buffer.len() == 0
        }),
{
    let buffer = m.buffer.push(e);
    keep_events_keeps_all(s, buffer, now, event_cid(buffer[i]));
    let kept = keep_events(s, buffer, now);
    let next = SessionModel { buffer: Seq::empty(), ..m };
    assert(keep_events(kept, Seq::<EnvelopeModel>::empty(), now) == kept);
    assert(has_event(resumed(s, m, Some(block), now).0.events, event_cid(buffer[i])));
}

/// Gathered events are kept with the oldest first: those that were gathered last.
pub proof fn gathered_events_are_kept_oldest_first(
    s: StoreModel,
    buffer: Seq<EnvelopeModel>,
    now: i64,
)
    requires
        forall|i: int, j: int|
            0 <= i < s.events.len() && 0 <= j < buffer.len() ==> event_cid(#[trigger] s.events[i])
                != event_cid(#[trigger] buffer[j]),
        forall|i: int, j: int|
            0 <= i < j < buffer.len() ==> event_cid(#[trigger] buffer[i]) != event_cid(
                #[trigger] buffer[j],
            ),
    ensures
        ({
            let after = keep_events(s, buffer, now).events;
            &&& after.len() == s.events.len() + buffer.len()
            &&& forall|i: int| 0 <= i < s.events.len() ==> #[trigger] after[i] == s.events[i]
            &&& forall|j: int|
                0 <= j < buffer.len() ==> after[s.events.len() + buffer.len() - 1 - j]
                    == #[trigger] buffer[j]
        }),
    decreases buffer.len(),
{
    if buffer.len() > 0 {
        let e = buffer.last();
        let init = buffer.drop_last();
        let next = with_event(s, e, now);
        let k = buffer.len() - 1;
        assert(buffer[k] == e);
        event_is_kept_once(s, e, now);
        assert(next.events == s.events.push(e)) by {
            assert forall|i: int| 0 <= i < s.events.len() implies event_cid(#[trigger] s.events[i])
                != event_cid(e) by {
                assert(event_cid(s.events[i]) != event_cid(buffer[k]));
            }
        }
        assert forall|i: int, j: int|
            0 <= i < next.events.len() && 0 <= j < init.len() implies event_cid(
            #[trigger] next.events[i],
        ) != event_cid(#[trigger] init[j]) by {
            assert(init[j] == buffer[j]);
            if i < s.events.len() {
                assert(next.events[i] == s.events[i]);
            } else {
                assert(event_cid(buffer[j]) != event_cid(buffer[k]));
            }
        }
        assert forall|i: int, j: int| 0 <= i < j < init.len() implies event_cid(
            #[trigger] init[i],
        ) != event_cid(#[trigger] init[j]) by {
            assert(init[i] == buffer[i] && init[j] == buffer[j]);
        }
        gathered_events_are_kept_oldest_first(next, init, now);
        let after = keep_events(s, buffer, now).events;
        assert forall|i: int| 0 <= i < s.events.len() implies #[trigger] after[i]
            == s.events[i] by {
            assert(after[i] == next.events[i]);
        }
        assert forall|j: int| 0 <= j < buffer.len() implies after[s.events.len() + buffer.len() - 1
            - j] == #[trigger] buffer[j] by {
            if j < k {
                assert(init[j] == buffer[j]);
                assert(after[next.events.len() + init.len() - 1 - j] == init[j]);
            } else {
                assert(after[s.events.len() as int] == next.events[s.events.len() as int]);
            }
        }
    }
}

/// When the way back meets the first event, the floor, or an event that is there, the session
/// turns to the gap below the run of events, if there is one above the floor: it asks for the
/// predecessor of the lowest event of the run, one position lower.
pub proof fn session_turns_to_the_gap_below(
    s: StoreModel,
    m: SessionModel,
    stop: StopModel,
    b: EnvelopeModel,
    p: Seq<u8>,
    now: i64,
)
    requires
        stop is Genesis || stop is KnownBlock || stop is Floor,
        !m.backward,
        m.buffer == Seq::<EnvelopeModel>::empty(),
        bottom_event(s, hex_text(m.record.payload.name)) == Some(b),
        b.payload.seq > m.floor,
        b.payload.prev == Some(p),
        forall|j: int| 0 <= j < s.events.len() ==> event_cid(#[trigger] s.events[j]) != p,
        m.budget > 0,
    ensures
        end_walk(s, m, stop, now) == (
            s,
            NextModel::Fetch(
                SessionModel {
                    backward: true,
                    cursor: Some(p),
                    expected_seq: (b.payload.seq - 1) as u64,
                    ..m
                },
            ),
        ),
{
    assert(flushed(s, m, now).1 == m);
}

/// A session is over when a block cannot be had, is bad, or nothing more may be fetched, and
/// when the gap below the run has been walked.
pub proof fn session_is_over_after_other_stops(
    s: StoreModel,
    m: SessionModel,
    stop: StopModel,
    now: i64,
)
    requires
        m.backward || stop is Budget || stop is Unavailable || stop is Invalid,
    ensures
        end_walk(s, m, stop, now).1 is Done,
        stop matches StopModel::Invalid(fault) ==> end_walk(s, m, stop, now).1 == NextModel::Done(
            Err(fault),
        ),
{
}

/// A session waits for a block only while the block is not there, its position is not below the
/// floor and something may be fetched; and as long as that is so it waits.
pub proof fn session_waits_for_what_it_wants(s: StoreModel, m: SessionModel)
    ensures
        walk_stop(s, m) is None <==> {
            &&& m.cursor matches Some(cid) && forall|j: int|
                0 <= j < s.events.len() ==> event_cid(#[trigger] s.events[j]) != cid
            &&& m.expected_seq >= m.floor
            &&& m.budget > 0
        },
{
}

/// A session that ends without a bad block says how many events it kept, and that the chain is
/// complete if and only if the run from its newest event goes down to the floor. The floor and
/// the end of the run are noted, and the head of the record if it is there and nothing newer is.
pub proof fn session_ends_with_its_count(
    s: StoreModel,
    m: SessionModel,
    stop: Option<StopModel>,
    now: i64,
)
    requires
        stop matches Some(x) ==> !(x is Invalid),
    ensures
        ({
            let key = hex_text(m.record.payload.name);
            let (after, next) = finish(s, m, stop, now);
            let reaches = bottom_event(s, key) matches Some(b) && b.payload.seq <= m.floor;
            &&& next == NextModel::Done(
                Ok(
                    OutcomeModel {
                        new_events: m.new_events,
                        completed: reaches,
                        forks_detected: m.forks_detected,
                    },
                ),
            )
            &&& after.sync.dom().contains(key)
            &&& after.sync[key].window_floor_seq == m.floor
            &&& after.sync[key].completed == reaches
            &&& after.sync[key].updated_at == now
            &&& bottom_event(s, key) matches Some(b) ==> after.sync[key].cursor_cid == Some(
                cid_text(event_cid(b)),
            ) && after.sync[key].cursor_seq == Some(b.payload.seq)
            &&& after.events == s.events
            &&& after.heads == s.heads
            &&& after.forks == s.forks
            &&& after.follows == s.follows
        }),
{
}

/// At its end a session notes the head of its record if that is there and no event of the
/// account has a higher position; otherwise what was noted stays.
pub proof fn session_notes_newest_head(
    s: StoreModel,
    m: SessionModel,
    stop: Option<StopModel>,
    now: i64,
)
    ensures
        ({
            let r = m.record.payload;
            let key = hex_text(r.name);
            let after = finish(s, m, stop, now).0;
            let held = exists|j: int|
                0 <= j < s.events.len() && event_cid(#[trigger] s.events[j]) == r.value;
            let newer = exists|j: int|
                0 <= j < s.events.len() && (#[trigger] s.events[j]).payload.author == r.name
                    && s.events[j].payload.seq > r.sequence;
            &&& held && !newer ==> account_at(after.accounts, key).latest_head_cid == Some(
                cid_text(r.value),
            )
            &&& !held || newer ==> after.accounts == s.accounts
        }),
{
    let r = m.record.payload;
    let key = hex_text(r.name);
    if exists|j: int|
        0 <= j < s.events.len() && (#[trigger] s.events[j]).payload.author == r.name
            && s.events[j].payload.seq > r.sequence {
        let j = choose|j: int|
            0 <= j < s.events.len() && (#[trigger] s.events[j]).payload.author == r.name
                && s.events[j].payload.seq > r.sequence;
        newest_exists(s.events, events_by(key), j);
        let i = choose|i: int|
            is_newest_among(s.events, events_by(key), i);
        assert(is_head_of(s, key, i));
        head_event_at(s, key, i);
        newest_event_has_highest_position(s, key, i);
    }
    if head_event(s, key) is Some {
        let i = choose|i: int| is_head_of(s, key, i);
        hex_text_injective(s.events[i].payload.author, r.name);
        head_event_at(s, key, i);
    }
}

// ---------------------------------------------------------------------------
// Forks
// ---------------------------------------------------------------------------

/// How many forks a session says it has seen; `None` if it ended with a bad block.
spec fn said_forks(next: NextModel) -> Option<int> {
    match next {
        NextModel::Fetch(m) => Some(m.forks_detected as int),
        NextModel::Done(Ok(o)) => Some(o.forks_detected as int),
        NextModel::Done(Err(_)) => None,
    }
}

/// Whether a state tells the forks that came since a session had seen `seen` of them.
spec fn tells_forks(forks: nat, seen: usize, state: (StoreModel, NextModel)) -> bool {
    let more = state.0.forks.len() - forks;
    more >= 0 && (seen + more <= usize::MAX ==> (said_forks(state.1) matches Some(n) ==> n == seen
        + more))
}

proof fn keeping_events_keeps_forks(s: StoreModel, buffer: Seq<EnvelopeModel>, now: i64)
    ensures
        keep_events(s, buffer, now).forks.len() >= s.forks.len(),
    decreases buffer.len(),
{
    if buffer.len() > 0 {
        known_forks_stay(s, buffer.last(), now);
        keeping_events_keeps_forks(with_event(s, buffer.last(), now), buffer.drop_last(), now);
    }
}

proof fn walk_end_tells_forks(s: StoreModel, m: SessionModel, stop: StopModel, now: i64)
    ensures
        tells_forks(s.forks.len(), m.forks_detected, end_walk(s, m, stop, now)),
{
    keeping_events_keeps_forks(s, m.buffer, now);
}

proof fn resuming_tells_forks(s: StoreModel, m: SessionModel, answer: Option<Seq<u8>>, now: i64)
    ensures
        tells_forks(s.forks.len(), m.forks_detected, resumed(s, m, answer, now)),
{
    match answer {
        None => {
            walk_end_tells_forks(s, m, StopModel::Unavailable, now);
        },
        Some(block) => match checked_block(m, m.cursor->Some_0, block) {
            Err(fault) => {
                let next = SessionModel { budget: (m.budget - 1) as usize, ..m };
                walk_end_tells_forks(s, next, StopModel::Invalid(fault), now);
            },
            Ok(e) => {
                let next = gathered(m, e);
                if next.buffer.len() >= next.chunk {
                    keeping_events_keeps_forks(s, next.buffer, now);
                    let (kept, rest) = flushed(s, next, now);
                    if let Some(stop) = walk_stop(kept, rest) {
                        walk_end_tells_forks(kept, rest, stop, now);
                    }
                } else if let Some(stop) = walk_stop(s, next) {
                    walk_end_tells_forks(s, next, stop, now);
                }
            },
        },
    }
}

proof fn answers_tell_forks(
    state: (StoreModel, NextModel),
    answers: Seq<Option<Seq<u8>>>,
    now: i64,
)
    ensures
        state.1 matches NextModel::Fetch(m) ==> tells_forks(
            state.0.forks.len(),
            m.forks_detected,
            after_answers(state, answers, now),
        ),
        !(state.1 is Fetch) ==> after_answers(state, answers, now) == state,
    decreases answers.len(),
{
    if let NextModel::Fetch(m) = state.1 {
        if answers.len() > 0 {
            let next = resumed(state.0, m, answers[0], now);
            resuming_tells_forks(state.0, m, answers[0], now);
            answers_tell_forks(next, answers.skip(1), now);
        }
    }
}

/// A session that ends without a bad block says how many forks were recorded since its record
/// came in.
pub proof fn recorded_forks_are_told(
    s: StoreModel,
    r: RecordModel,
    limits: LimitsModel,
    answers: Seq<Option<Seq<u8>>>,
    now: i64,
)
    requires
        sync_run(s, r, limits, answers, now).0.forks.len() <= usize::MAX,
    ensures
        ({
            let (after, next) = sync_run(s, r, limits, answers, now);
            next matches NextModel::Done(Ok(o)) ==> o.forks_detected == after.forks.len()
                - s.forks.len()
        }),
{
    let start = begun(s, r, limits, now);
    let noted = record_noted(s, r, now);
    answers_tell_forks(start, answers, now);
    assert(noted.forks.len() >= s.forks.len());
    if record_signed(r) && !is_stale(noted, r) {
        let m = new_session(noted, r, limits, (noted.forks.len() - s.forks.len()) as usize);
        if !has_event(noted.events, r.payload.value) {
            if let Some(stop) = walk_stop(noted, m) {
                walk_end_tells_forks(noted, m, stop, now);
            }
        }
    }
}

// ---------------------------------------------------------------------------
// A new follower
// ---------------------------------------------------------------------------

/// A node that knows nothing of an account takes in exactly the newest events of its chain, as
/// many as the window allows, when the network has them all: a chain no longer than the window
/// is taken in whole. The session then says how many it took in and that it is complete.
pub proof fn new_follower_gets_the_newest_window(
    s: StoreModel,
    r: RecordModel,
    limits: LimitsModel,
    c: Seq<EnvelopeModel>,
    now: i64,
)
    requires
        c.len() > 0,
        forall|i: int, j: int|
            0 <= i < j < c.len() ==> event_cid(#[trigger] c[i]) != event_cid(#[trigger] c[j]),
        forall|i: int|
            0 <= i < c.len() ==> {
                let e = #[trigger] c[i];
                &&& e.payload.author == r.payload.name
                &&& e.payload.seq == i
                &&& e.payload.prev == if i == 0 {
                    None
                } else {
                    Some(event_cid(c[i - 1]))
                }
                &&& ed25519_key_valid(e.payload.author)
                &&& ed25519_verifies(
                    e.payload.author,
                    dag_cbor_bytes(payload_tree(e.payload)),
                    e.signature,
                )
                &&& envelope_of_block(envelope_block(e)) == Ok::<EnvelopeModel, Seq<char>>(e)
            },
        ed25519_key_valid(r.payload.name),
        ed25519_verifies(
            r.payload.name,
            dag_cbor_bytes(record_payload_tree(r.payload)),
            r.signature,
        ),
        r.payload.value == event_cid(c.last()),
        r.payload.sequence == c.len() - 1,
        !s.sync.dom().contains(hex_text(r.payload.name)),
        forall|i: int, j: int|
            0 <= i < j < s.events.len() ==> event_cid(#[trigger] s.events[i]) != event_cid(
                #[trigger] s.events[j],
            ),
        forall|j: int|
            0 <= j < s.events.len() ==> (#[trigger] s.events[j]).payload.author != r.payload.name,
        forall|j: int, i: int|
            0 <= j < s.events.len() && 0 <= i < c.len() ==> event_cid(#[trigger] s.events[j])
                != event_cid(#[trigger] c[i]),
        limits.window > 0,
        limits.budget >= limits.window || limits.budget >= c.len(),
    ensures
        ({
            let n = c.len() as int;
            let wanted = if n <= limits.window {
                n
            } else {
                limits.window as int
            };
            let answers = Seq::new(
                wanted as nat,
                |k: int| Some(envelope_block(c[n - 1 - k])),
            );
            let (after, next) = sync_run(s, r, limits, answers, now);
            &&& next matches NextModel::Done(Ok(o)) && o.new_events == wanted && o.completed
            &&& forall|i: int|
                n - wanted <= i < n ==> after.events.contains(#[trigger] c[i])
            &&& forall|i: int|
                0 <= i < n - wanted ==> !after.events.contains(#[trigger] c[i])
        }),
{
    let n = c.len() as int;
    let name = r.payload.name;
    let noted = record_noted(s, r, now);
    let key = hex_text(name);
    assert(noted.events == s.events && noted.sync == s.sync);
    let wanted = if n <= limits.window {
        n
    } else {
        limits.window as int
    };
    let floor = session_floor(noted, r, limits.window) as int;
    unknown_chain_is_wanted_to_the_window(noted, r, limits.window);
    assert(floor == n - wanted);
    assert(crate::sync::convergence::is_chain(c, name)) by {
        assert forall|i: int| 0 <= i < c.len() implies crate::store::is_readable(
            #[trigger] c[i],
        ) && crate::event::envelope_signed(c[i]) by {}
    }
    assert(holds(s, c, name, span(floor, floor)));
    only_old_news_is_passed_over(noted, r);
    session_catches_up(s, r, limits, c, floor, floor, now);
    let answers = Seq::new(wanted as nat, |k: int| Some(envelope_block(c[n - 1 - k])));
    assert(blocks_down(c, n, floor) + blocks_down(c, floor, floor) =~= answers);
    let (after, next) = sync_run(s, r, limits, answers, now);
    assert forall|i: int| floor <= i < n implies after.events.contains(#[trigger] c[i]) by {
        assert(span(floor, n).contains(i));
    }
    assert forall|i: int| 0 <= i < floor implies !after.events.contains(#[trigger] c[i]) by {
        assert(!span(floor, n).contains(i));
        assert(!has_event(after.events, event_cid(c[i])));
        if after.events.contains(c[i]) {
            let j = choose|j: int| 0 <= j < after.events.len() && after.events[j] == c[i];
            assert(event_cid(after.events[j]) == event_cid(c[i]));
        }
    }
}

/// A signed record that tells something new though its head is there, such as when the chain
/// was not fetched whole, starts a session at the gap below the events that hang together.
pub proof fn known_head_leads_to_the_gap_below(
    s: StoreModel,
    r: RecordModel,
    limits: LimitsModel,
    b: EnvelopeModel,
    p: Seq<u8>,
    k: int,
    now: i64,
)
    requires
        ed25519_key_valid(r.payload.name),
        ed25519_verifies(
            r.payload.name,
            dag_cbor_bytes(record_payload_tree(r.payload)),
            r.signature,
        ),
        !is_stale(s, r),
        0 <= k < s.events.len(),
        event_cid(s.events[k]) == r.payload.value,
        bottom_event(s, hex_text(r.payload.name)) == Some(b),
        b.payload.seq > session_floor(s, r, limits.window),
        b.payload.prev == Some(p),
        forall|j: int| 0 <= j < s.events.len() ==> event_cid(#[trigger] s.events[j]) != p,
        limits.budget > 0,
    ensures
        begun(s, r, limits, now).1 matches NextModel::Fetch(m) && {
            &&& m.record == r
            &&& m.cursor == Some(p)
            &&& m.expected_seq == b.payload.seq - 1
            &&& m.floor == session_floor(s, r, limits.window)
            &&& m.budget == limits.budget
            &&& m.chunk == limits.chunk
            &&& m.buffer == Seq::<EnvelopeModel>::empty()
            &&& m.new_events == 0
            &&& m.backward
        },
        begun(s, r, limits, now).0.events == s.events,
{
    let noted = record_noted(s, r, now);
    let key = hex_text(r.payload.name);
    assert(noted.events == s.events && noted.sync == s.sync);
    assert(forall|i: int| is_head_of(noted, key, i) == is_head_of(s, key, i));
    let i = choose|i: int| is_head_of(s, key, i);
    head_event_at(s, key, i);
    head_event_at(noted, key, i);
    let j = choose|j: int| is_head_of(noted, key, j);
    newest_is_unique(s.events, events_by(key), i, j);
}

/// Every block that is taken counts as one new event, whether it is still gathered or already
/// kept, and a block that cannot be had counts as none.
pub proof fn every_taken_block_is_counted(
    s: StoreModel,
    m: SessionModel,
    block: Seq<u8>,
    e: EnvelopeModel,
    now: i64,
)
    requires
        m.cursor is Some,
        m.new_events + m.buffer.len() < usize::MAX,
    ensures
        ({
            let count = m.new_events + m.buffer.len();
            let taken = resumed(s, m, Some(block), now).1;
            let missed = resumed(s, m, None, now).1;
            &&& checked_block(m, m.cursor->0, block) == Ok::<EnvelopeModel, SyncFault>(e) ==> {
                &&& taken matches NextModel::Fetch(n) ==> n.new_events + n.buffer.len() == count + 1
                &&& taken matches NextModel::Done(Ok(o)) ==> o.new_events == count + 1
            }
            &&& missed matches NextModel::Done(Ok(o)) && o.new_events == count
        }),
{
}

} // verus!
