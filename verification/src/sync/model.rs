//! The model of chain fetching: what a session does with each answer of the network.

use crate::cid::cid_text;
use crate::event::{
    chain_link_error, envelope_of_block, envelope_signed, event_cid, ChainError, EnvelopeModel,
};
use crate::head::{record_signed, RecordModel};
use crate::projection::{has_event, newest_is_unique};
use crate::store::model::{
    events_by, is_head_of, run_bottom_from, with_event, with_head_cid, with_record,
    with_snapshot_name, StoreModel, SyncModel,
};
use crate::util::hex_text;
use vstd::prelude::*;

verus! {

/// How much of a chain is fetched.
pub struct LimitsModel {
    /// How many of the newest events are wanted of a chain that is not known yet.
    pub window: u64,
    /// How many events are gathered before they are kept.
    pub chunk: usize,
    /// How many events one session fetches at most.
    pub budget: usize,
}

/// Why a chain is not to be trusted.
pub enum SyncFault {
    InvalidSignature,
    Decode(Seq<char>),
    AuthorMismatch { cid: Seq<u8> },
    SeqMismatch { cid: Seq<u8>, expected: u64, got: u64 },
    BrokenChain { cid: Seq<u8> },
}

/// Why the way back along a chain came to an end.
pub enum StopModel {
    /// The first event of the chain was reached.
    Genesis,
    /// An event was reached that is already there.
    KnownBlock,
    /// The floor was reached.
    Floor,
    /// The session has fetched as much as it may.
    Budget,
    /// A block could not be had.
    Unavailable,
    /// A block is not what it should be.
    Invalid(SyncFault),
}

/// A session that waits for a block.
#[verifier::ext_equal]
pub struct SessionModel {
    pub record: RecordModel,
    pub chunk: usize,
    /// Events below this position are not fetched.
    pub floor: u64,
    /// Whether the session has come to the gap below the events that hang together.
    pub backward: bool,
    /// The event that is wanted next.
    pub cursor: Option<Seq<u8>>,
    /// The position that it must have.
    pub expected_seq: u64,
    /// How many blocks may still be fetched.
    pub budget: usize,
    /// Events that were checked and not kept yet, the newest first.
    pub buffer: Seq<EnvelopeModel>,
    /// How many events were kept.
    pub new_events: usize,
    /// How many forks were recorded.
    pub forks_detected: usize,
}

/// What a session came to.
pub struct OutcomeModel {
    pub new_events: usize,
    pub completed: bool,
    pub forks_detected: usize,
}

/// What a session does next.
pub enum NextModel {
    /// It waits for the block at its cursor.
    Fetch(SessionModel),
    /// It is over.
    Done(Result<OutcomeModel, SyncFault>),
}

/// The sum of two counts, as far as counts go.
pub open spec fn add_counts(a: usize, b: usize) -> usize {
    if a + b > usize::MAX {
        usize::MAX
    } else {
        (a + b) as usize
    }
}

/// The newest event of the account `key`.
pub open spec fn head_event(s: StoreModel, key: Seq<char>) -> Option<EnvelopeModel> {
    if exists|i: int| is_head_of(s, key, i) {
        Some(s.events[choose|i: int| is_head_of(s, key, i)])
    } else {
        None
    }
}

/// The lowest event that hangs together with the newest event of the account `key`.
pub open spec fn bottom_event(s: StoreModel, key: Seq<char>) -> Option<EnvelopeModel> {
    if exists|i: int| is_head_of(s, key, i) {
        Some(s.events[run_bottom_from(s, choose|i: int| is_head_of(s, key, i))])
    } else {
        None
    }
}

/// The store after the gathered events were kept, the oldest first.
pub open spec fn keep_events(s: StoreModel, buffer: Seq<EnvelopeModel>, now: i64) -> StoreModel
    decreases buffer.len(),
{
    if buffer.len() == 0 {
        s
    } else {
        keep_events(with_event(s, buffer.last(), now), buffer.drop_last(), now)
    }
}

/// The session after it kept its gathered events.
pub open spec fn flushed(s: StoreModel, m: SessionModel, now: i64) -> (StoreModel, SessionModel) {
    let kept = keep_events(s, m.buffer, now);
    (
        kept,
        SessionModel {
            buffer: Seq::empty(),
            new_events: (m.new_events + m.buffer.len()) as usize,
            forks_detected: add_counts(
                m.forks_detected,
                (kept.forks.len() - s.forks.len()) as usize,
            ),
            ..m
        },
    )
}

/// Why the session fetches no further, if it does not.
pub open spec fn walk_stop(s: StoreModel, m: SessionModel) -> Option<StopModel> {
    match m.cursor {
        None => Some(StopModel::Genesis),
        Some(cid) => if has_event(s.events, cid) {
            Some(StopModel::KnownBlock)
        } else if m.expected_seq < m.floor {
            Some(StopModel::Floor)
        } else if m.budget == 0 {
            Some(StopModel::Budget)
        } else {
            None
        },
    }
}

/// Whether the session may go on elsewhere after a stop.
pub open spec fn can_continue(stop: StopModel) -> bool {
    stop is Genesis || stop is KnownBlock || stop is Floor
}

/// The end of a session: how far the chain has come is worked out anew from the events, and
/// the newest event of the account is noted if it is there.
pub open spec fn finish(s: StoreModel, m: SessionModel, stop: Option<StopModel>, now: i64) -> (
    StoreModel,
    NextModel,
) {
    let key = hex_text(m.record.payload.name);
    let bottom = bottom_event(s, key);
    let completed = bottom matches Some(b) && b.payload.seq <= m.floor;
    let noted = StoreModel {
        sync: s.sync.insert(
            key,
            SyncModel {
                window_floor_seq: m.floor,
                cursor_cid: match bottom {
                    Some(b) => Some(cid_text(event_cid(b))),
                    None => None,
                },
                cursor_seq: match bottom {
                    Some(b) => Some(b.payload.seq),
                    None => None,
                },
                completed,
                updated_at: now,
            },
        ),
        ..s
    };
    let is_latest = match head_event(s, key) {
        Some(h) => m.record.payload.sequence >= h.payload.seq,
        None => true,
    };
    let after = if has_event(s.events, m.record.payload.value) && is_latest {
        with_head_cid(noted, key, cid_text(m.record.payload.value))
    } else {
        noted
    };
    let result = match stop {
        Some(StopModel::Invalid(fault)) => Err(fault),
        _ => Ok(
            OutcomeModel {
                new_events: m.new_events,
                completed,
                forks_detected: m.forks_detected,
            },
        ),
    };
    (after, NextModel::Done(result))
}

/// The session turns to the gap below the events that hang together, if that is above the
/// floor.
pub open spec fn go_backward(s: StoreModel, m: SessionModel, now: i64) -> (StoreModel, NextModel) {
    let key = hex_text(m.record.payload.name);
    match bottom_event(s, key) {
        Some(b) => if b.payload.seq > m.floor && b.payload.prev is Some {
            let next = SessionModel {
                backward: true,
                cursor: b.payload.prev,
                expected_seq: (b.payload.seq - 1) as u64,
                ..m
            };
            match walk_stop(s, next) {
                Some(stop) => finish(s, next, Some(stop), now),
                None => (s, NextModel::Fetch(next)),
            }
        } else {
            finish(s, m, None, now)
        },
        None => finish(s, m, None, now),
    }
}

/// The session after the way back came to an end: what was gathered is kept in any case.
pub open spec fn end_walk(s: StoreModel, m: SessionModel, stop: StopModel, now: i64) -> (
    StoreModel,
    NextModel,
) {
    let (kept, rest) = flushed(s, m, now);
    if can_continue(stop) && !m.backward {
        go_backward(kept, rest, now)
    } else {
        finish(kept, rest, Some(stop), now)
    }
}

/// The session fetches on or comes to an end.
pub open spec fn advance(s: StoreModel, m: SessionModel, now: i64) -> (StoreModel, NextModel) {
    match walk_stop(s, m) {
        Some(stop) => end_walk(s, m, stop, now),
        None => (s, NextModel::Fetch(m)),
    }
}

/// The event in a block, if it is one for the session's place in the chain: it decodes, its
/// author signed it, and it fits the author and the position.
pub open spec fn checked_block(m: SessionModel, cid: Seq<u8>, block: Seq<u8>) -> Result<
    EnvelopeModel,
    SyncFault,
> {
    match envelope_of_block(block) {
        Err(message) => Err(SyncFault::Decode(message)),
        Ok(e) => if !envelope_signed(e) {
            Err(SyncFault::InvalidSignature)
        } else {
            match chain_link_error(e, m.record.payload.name, m.expected_seq) {
                Some(ChainError::WrongAuthor) => Err(SyncFault::AuthorMismatch { cid }),
                Some(ChainError::WrongSeq { expected, got }) => Err(
                    SyncFault::SeqMismatch { cid, expected, got },
                ),
                Some(ChainError::BrokenPrev) => Err(SyncFault::BrokenChain { cid }),
                None => Ok(e),
            }
        },
    }
}

/// The session with one more event gathered.
pub open spec fn gathered(m: SessionModel, e: EnvelopeModel) -> SessionModel {
    SessionModel {
        cursor: e.payload.prev,
        expected_seq: if m.expected_seq == 0 {
            0
        } else {
            (m.expected_seq - 1) as u64
        },
        budget: (m.budget - 1) as usize,
        buffer: m.buffer.push(e),
        ..m
    }
}

/// What a session does with the network's answer: the block at its cursor, or that there is
/// none to be had.
pub open spec fn resumed(s: StoreModel, m: SessionModel, answer: Option<Seq<u8>>, now: i64) -> (
    StoreModel,
    NextModel,
) {
    match answer {
        None => end_walk(s, m, StopModel::Unavailable, now),
        Some(block) => match checked_block(m, m.cursor->Some_0, block) {
            Err(fault) => end_walk(
                s,
                SessionModel { budget: (m.budget - 1) as usize, ..m },
                StopModel::Invalid(fault),
                now,
            ),
            Ok(e) => {
                let next = gathered(m, e);
                if next.buffer.len() >= next.chunk {
                    let (kept, rest) = flushed(s, next, now);
                    advance(kept, rest, now)
                } else {
                    advance(s, next, now)
                }
            },
        },
    }
}

/// The floor for a chain that is not known yet: the newest `window` events are wanted.
pub open spec fn default_floor(sequence: u64, window: u64) -> u64 {
    if sequence + 1 <= window {
        0
    } else if sequence + 1 - window > u64::MAX {
        u64::MAX
    } else {
        (sequence + 1 - window) as u64
    }
}

/// The floor for a session: once events of the account are there it stays as it is, and
/// before that it only rises.
pub open spec fn session_floor(s: StoreModel, r: RecordModel, window: u64) -> u64 {
    let key = hex_text(r.payload.name);
    let fresh = default_floor(r.payload.sequence, window);
    if !s.sync.dom().contains(key) {
        fresh
    } else {
        let noted = s.sync[key].window_floor_seq;
        if head_event(s, key) is Some || noted >= fresh {
            noted
        } else {
            fresh
        }
    }
}

/// Whether a record tells nothing new: its position is not above that of the newest event,
/// the chain is fetched whole, and its head is there.
pub open spec fn is_stale(s: StoreModel, r: RecordModel) -> bool {
    let key = hex_text(r.payload.name);
    &&& head_event(s, key) matches Some(h) && r.payload.sequence <= h.payload.seq
    &&& s.sync.dom().contains(key) && s.sync[key].completed
    &&& has_event(s.events, r.payload.value)
}

/// The store after a good record came in: the record is kept and its name noted, whatever
/// becomes of the chain.
pub open spec fn record_noted(s: StoreModel, r: RecordModel, now: i64) -> StoreModel {
    let seen = with_record(s, r, now);
    if r.payload.display_name.len() > 0 {
        with_snapshot_name(
            seen,
            hex_text(r.payload.name),
            r.payload.sequence,
            r.payload.display_name,
        )
    } else {
        seen
    }
}

/// The session that a good record starts, at the head that it points at.
pub open spec fn new_session(
    s: StoreModel,
    r: RecordModel,
    limits: LimitsModel,
    forks_detected: usize,
) -> SessionModel {
    SessionModel {
        record: r,
        chunk: limits.chunk,
        floor: session_floor(s, r, limits.window),
        backward: false,
        cursor: Some(r.payload.value),
        expected_seq: r.payload.sequence,
        budget: limits.budget,
        buffer: Seq::empty(),
        new_events: 0,
        forks_detected,
    }
}

/// What happens when a record comes in: a bad one is refused and changes nothing, a stale one
/// only leaves its pointer and name, any other starts a session.
pub open spec fn begun(s: StoreModel, r: RecordModel, limits: LimitsModel, now: i64) -> (
    StoreModel,
    NextModel,
) {
    if !record_signed(r) {
        (s, NextModel::Done(Err(SyncFault::InvalidSignature)))
    } else {
        let noted = record_noted(s, r, now);
        let forks = (noted.forks.len() - s.forks.len()) as usize;
        if is_stale(noted, r) {
            (
                noted,
                NextModel::Done(
                    Ok(OutcomeModel { new_events: 0, completed: true, forks_detected: forks }),
                ),
            )
        } else {
            let m = new_session(noted, r, limits, forks);
            if has_event(noted.events, r.payload.value) {
                go_backward(noted, m, now)
            } else {
                advance(noted, m, now)
            }
        }
    }
}

/// The newest event found by its place is the newest event.
pub proof fn head_event_at(s: StoreModel, key: Seq<char>, i: int)
    requires
        is_head_of(s, key, i),
    ensures
        head_event(s, key) == Some(s.events[i]),
        bottom_event(s, key) == Some(s.events[run_bottom_from(s, i)]),
{
    let j = choose|j: int| is_head_of(s, key, j);
    newest_is_unique(s.events, events_by(key), i, j);
}

} // verus!
