//! Chain fetching.
//!
//! A head record, wherever it came from, starts a session. The session says which block it
//! wants; the caller fetches it and hands it back. What each step does is stated in
//! [`model`].

use crate::cid::{cid_text, Cid};
use crate::dag_cbor::cid_option;
use crate::event::{
    clone_optional_cid, envelope_from_dag_cbor, event_cid, verify_chain_link, verify_envelope, ChainError, EnvelopeModel,
    EventEnvelope,
};
use crate::head::{verify_ipns_record, IpnsRecord};
use crate::projection::newest_is_unique;
use crate::store::model::{events_by, is_head_of};
use crate::store::{Store, SyncStateRow};
use crate::sync::model::{
    add_counts, advance, begun, bottom_event, can_continue, checked_block, default_floor, end_walk,
    finish, flushed, gathered, go_backward, head_event, head_event_at, keep_events, new_session,
    record_noted, resumed, walk_stop, LimitsModel, NextModel, OutcomeModel, SessionModel, StopModel,
    SyncFault,
};
use crate::util::{bytes_to_hex, decimal, hex_text, u64_to_text};
use vstd::prelude::*;
use vstd::string::*;

pub mod convergence;
pub mod effects;
pub mod laws;
pub mod model;

verus! {

/// How many of the newest events are wanted of a chain that is not known yet.
pub const SYNC_WINDOW: u64 = 500;

/// How many events are gathered before they are kept.
pub const SYNC_CHUNK: usize = 100;

/// How many events one session fetches at most.
pub const SYNC_BUDGET: usize = 1_000;

/// How much of a chain is fetched.
#[derive(Debug, Clone, Copy)]
pub struct SyncLimits {
    pub window: u64,
    pub chunk: usize,
    pub budget: usize,
}

impl View for SyncLimits {
    type V = LimitsModel;

    open spec fn view(&self) -> LimitsModel {
        LimitsModel { window: self.window, chunk: self.chunk, budget: self.budget }
    }
}

impl Default for SyncLimits {
    fn default() -> (res: Self)
        ensures
            res.window == SYNC_WINDOW,
            res.chunk == SYNC_CHUNK,
            res.budget == SYNC_BUDGET,
    {
        SyncLimits { window: SYNC_WINDOW, chunk: SYNC_CHUNK, budget: SYNC_BUDGET }
    }
}

/// Why a chain is not to be trusted.
#[derive(Debug, PartialEq, Eq)]
pub enum SyncError {
    /// A record or an event is not signed by its author.
    InvalidSignature,
    /// A block holds no event.
    Decode(String),
    /// An event is by another author than the record.
    AuthorMismatch { cid: Cid },
    /// An event has another position than its place in the chain.
    SeqMismatch { cid: Cid, expected: u64, got: u64 },
    /// A genesis event with a predecessor, or another event without one.
    BrokenChain { cid: Cid },
}

impl View for SyncError {
    type V = SyncFault;

    open spec fn view(&self) -> SyncFault {
        match *self {
            SyncError::InvalidSignature => SyncFault::InvalidSignature,
            SyncError::Decode(text) => SyncFault::Decode(text@),
            SyncError::AuthorMismatch { cid } => SyncFault::AuthorMismatch { cid: cid@ },
            SyncError::SeqMismatch { cid, expected, got } => SyncFault::SeqMismatch {
                cid: cid@,
                expected,
                got,
            },
            SyncError::BrokenChain { cid } => SyncFault::BrokenChain { cid: cid@ },
        }
    }
}

impl SyncError {
    /// The message of the error.
    pub open spec fn message(&self) -> Seq<char> {
        match *self {
            SyncError::InvalidSignature => "invalid signature"@,
            SyncError::Decode(text) => "decode error: "@ + text@,
            SyncError::AuthorMismatch { cid } => "author mismatch at "@ + cid_text(cid@),
            SyncError::SeqMismatch { cid, expected, got } => "seq mismatch at "@ + cid_text(cid@)
                + ": expected "@ + decimal(expected as nat) + ", got "@ + decimal(got as nat),
            SyncError::BrokenChain { cid } => "broken chain at "@ + cid_text(cid@),
        }
    }

    /// The message of the error.
    pub fn to_string(&self) -> (res: String)
        ensures
            res@ == self.message(),
    {
        match self {
            SyncError::InvalidSignature => "invalid signature".to_owned(),
            SyncError::Decode(text) => {
                let s = "decode error: ".to_owned();
                s.concat(text.as_str())
            },
            SyncError::AuthorMismatch { cid } => {
                let s = "author mismatch at ".to_owned();
                s.concat(cid.to_string().as_str())
            },
            SyncError::SeqMismatch { cid, expected, got } => {
                let s = "seq mismatch at ".to_owned();
                let s = s.concat(cid.to_string().as_str());
                let s = s.concat(": expected ");
                let s = s.concat(u64_to_text(*expected).as_str());
                let s = s.concat(", got ");
                s.concat(u64_to_text(*got).as_str())
            },
            SyncError::BrokenChain { cid } => {
                let s = "broken chain at ".to_owned();
                s.concat(cid.to_string().as_str())
            },
        }
    }
}

/// What a session came to.
#[derive(Debug, PartialEq, Eq)]
pub struct SyncOutcome {
    /// How many events were taken in.
    pub new_events: usize,
    /// Whether the chain is there down to its first event or to the floor. Otherwise a later
    /// record takes up where this session left off.
    pub completed: bool,
    /// How many forks were recorded.
    pub forks_detected: usize,
}

impl Default for SyncOutcome {
    fn default() -> (res: Self)
        ensures
            res.new_events == 0,
            res.completed == false,
            res.forks_detected == 0,
    {
        SyncOutcome { new_events: 0, completed: false, forks_detected: 0 }
    }
}

impl View for SyncOutcome {
    type V = OutcomeModel;

    open spec fn view(&self) -> OutcomeModel {
        OutcomeModel {
            new_events: self.new_events,
            completed: self.completed,
            forks_detected: self.forks_detected,
        }
    }
}

enum StopKind {
    Genesis,
    KnownBlock,
    Floor,
    Budget,
    Unavailable,
    Invalid(SyncError),
}

impl StopKind {
    spec fn model(&self) -> StopModel {
        match *self {
            StopKind::Genesis => StopModel::Genesis,
            StopKind::KnownBlock => StopModel::KnownBlock,
            StopKind::Floor => StopModel::Floor,
            StopKind::Budget => StopModel::Budget,
            StopKind::Unavailable => StopModel::Unavailable,
            StopKind::Invalid(e) => StopModel::Invalid(e@),
        }
    }

    fn can_continue(&self) -> (res: bool)
        ensures
            res == can_continue(self.model()),
    {
        matches!(self, StopKind::Genesis | StopKind::KnownBlock | StopKind::Floor)
    }
}

/// A session that waits for a block.
pub struct SyncSession {
    record: IpnsRecord,
    author_hex: String,
    chunk: usize,
    floor: u64,
    backward: bool,
    cursor: Option<Cid>,
    expected_seq: u64,
    budget: usize,
    buffer: Vec<EventEnvelope>,
    new_events: usize,
    forks_detected: usize,
}

/// What a session does next.
pub enum SyncStep {
    /// It waits for the block at [`SyncSession::wanted`].
    Fetch(SyncSession),
    /// It is over.
    Done(Result<SyncOutcome, SyncError>),
}

spec fn envelope_views(events: Seq<EventEnvelope>) -> Seq<EnvelopeModel> {
    events.map_values(|e: EventEnvelope| e@)
}

impl View for SyncSession {
    type V = SessionModel;

    closed spec fn view(&self) -> SessionModel {
        SessionModel {
            record: self.record@,
            chunk: self.chunk,
            floor: self.floor,
            backward: self.backward,
            cursor: cid_option(self.cursor),
            expected_seq: self.expected_seq,
            budget: self.budget,
            buffer: envelope_views(self.buffer@),
            new_events: self.new_events,
            forks_detected: self.forks_detected,
        }
    }
}

/// Whether a step is the one that the model gives.
pub open spec fn step_is(step: SyncStep, next: NextModel) -> bool {
    match (step, next) {
        (SyncStep::Fetch(session), NextModel::Fetch(m)) => session@ == m,
        (SyncStep::Done(Ok(outcome)), NextModel::Done(Ok(o))) => outcome@ == o,
        (SyncStep::Done(Err(error)), NextModel::Done(Err(f))) => error@ == f,
        _ => false,
    }
}

/// Whether the session of a step, if there is one, is well formed.
pub open spec fn step_wf(step: SyncStep) -> bool {
    step matches SyncStep::Fetch(session) ==> session.wf() && session.waiting()
}

impl SyncSession {
    /// The session's invariant: its counts stay within what it may fetch.
    pub closed spec fn wf(&self) -> bool {
        &&& self.author_hex@ == hex_text(self.record@.payload.name)
        &&& self.new_events + self.buffer@.len() + self.budget <= usize::MAX
    }

    /// Whether the session waits for a block that it may fetch.
    pub closed spec fn waiting(&self) -> bool {
        self.cursor is Some && self.budget > 0
    }

    /// The CID of the block that the session waits for.
    pub fn wanted(&self) -> (res: Cid)
        requires
            self.waiting(),
        ensures
            self@.cursor == Some(res@),
    {
        match &self.cursor {
            Some(c) => c.clone(),
            None => {
                proof {
                    assert(false);
                }
                self.record.payload.value.clone()
            },
        }
    }

    fn stop(&self, store: &Store) -> (res: Option<StopKind>)
        requires
            self.wf(),
            store.wf(),
        ensures
            match res {
                Some(stop) => walk_stop(store@, self@) == Some(stop.model()),
                None => walk_stop(store@, self@) is None && self.waiting(),
            },
    {
        match &self.cursor {
            None => Some(StopKind::Genesis),
            Some(cid) => if store.has_block(cid) {
                Some(StopKind::KnownBlock)
            } else if self.expected_seq < self.floor {
                Some(StopKind::Floor)
            } else if self.budget == 0 {
                Some(StopKind::Budget)
            } else {
                None
            },
        }
    }

    /// Keeps the gathered events, the oldest first.
    fn flush(&mut self, store: &mut Store, now_ms: i64)
        requires
            old(self).wf(),
            old(store).wf(),
        ensures
            final(self).wf(),
            final(store).wf(),
            (final(store)@, final(self)@) == flushed(old(store)@, old(self)@, now_ms),
            final(self).waiting() == old(self).waiting(),
    {
        let ghost start = store@;
        let ghost session = self@;
        let ghost buffer = envelope_views(self.buffer@);
        let n: usize = self.buffer.len();
        let mut forks: usize = self.forks_detected;
        let mut i: usize = n;
        proof {
            assert(buffer.take(n as int) =~= buffer);
            store.fork_count_fits();
        }
        while i > 0
            invariant
                i <= n == self.buffer@.len(),
                store.wf(),
                buffer == envelope_views(self.buffer@),
                session == self@,
                keep_events(store@, buffer.take(i as int), now_ms) == keep_events(
                    start,
                    buffer,
                    now_ms,
                ),
                start.forks.len() <= store@.forks.len(),
                forks == add_counts(
                    session.forks_detected,
                    (store@.forks.len() - start.forks.len()) as usize,
                ),
                store@.forks.len() <= usize::MAX,
            decreases i,
        {
            i -= 1;
            let ghost before = store@;
            let outcome = store.insert_event(&self.buffer[i], now_ms);
            proof {
                assert(buffer.take(i + 1).drop_last() =~= buffer.take(i as int));
                assert(buffer.take(i + 1).last() == self.buffer@[i as int]@);
                store.fork_count_fits();
            }
            forks = forks.saturating_add(outcome.forks_recorded);
        }
        assert(buffer.take(0).len() == 0);
        self.new_events = self.new_events + n;
        self.forks_detected = forks;
        self.buffer = Vec::new();
        proof {
            assert(envelope_views(self.buffer@) =~= Seq::<EnvelopeModel>::empty());
            assert(self@ =~= flushed(start, session, now_ms).1);
        }
    }

    /// Works out how far the chain has come, and notes it.
    fn finish(self, store: &mut Store, stop: Option<StopKind>, now_ms: i64) -> (res: SyncStep)
        requires
            self.wf(),
            old(store).wf(),
        ensures
            final(store).wf(),
            ({
                let (s, next) = finish(
                    old(store)@,
                    self@,
                    match stop {
                        Some(k) => Some(k.model()),
                        None => None,
                    },
                    now_ms,
                );
                final(store)@ == s && step_is(res, next) && step_wf(res)
            }),
    {
        let ghost start = store@;
        let key = self.author_hex.as_str();
        let (cursor_cid, cursor_seq, completed) = match bottom_of(store, key) {
            Some((cid, _, seq)) => (Some(cid.to_string()), Some(seq), seq <= self.floor),
            None => (None, None, false),
        };
        let row = SyncStateRow {
            pubkey: self.author_hex.clone(),
            window_floor_seq: self.floor,
            cursor_cid,
            cursor_seq,
            completed,
        };
        let is_latest = match head_seq_of(store, key) {
            Some(seq) => self.record.payload.sequence >= seq,
            None => true,
        };
        let head_is_there = store.has_block(&self.record.payload.value);
        store.upsert_sync_state(&row, now_ms);
        if head_is_there && is_latest {
            let text = self.record.payload.value.to_string();
            store.update_head_cid(key, text.as_str());
        }
        if let Some(StopKind::Invalid(e)) = stop {
            return SyncStep::Done(Err(e));
        }
        SyncStep::Done(
            Ok(
                SyncOutcome {
                    new_events: self.new_events,
                    completed,
                    forks_detected: self.forks_detected,
                },
            ),
        )
    }

    /// Turns to the gap below the events that hang together.
    fn go_backward(self, store: &mut Store, now_ms: i64) -> (res: SyncStep)
        requires
            self.wf(),
            old(store).wf(),
        ensures
            final(store).wf(),
            ({
                let (s, next) = go_backward(old(store)@, self@, now_ms);
                final(store)@ == s && step_is(res, next) && step_wf(res)
            }),
    {
        let mut session = self;
        match bottom_of(store, session.author_hex.as_str()) {
            Some((_, prev, seq)) => if seq > session.floor && prev.is_some() {
                session.backward = true;
                session.cursor = prev;
                session.expected_seq = seq - 1;
                match session.stop(store) {
                    Some(stop) => session.finish(store, Some(stop), now_ms),
                    None => SyncStep::Fetch(session),
                }
            } else {
                session.finish(store, None, now_ms)
            },
            None => session.finish(store, None, now_ms),
        }
    }

    /// Keeps what was gathered, and goes on elsewhere or comes to an end.
    fn end_walk(self, store: &mut Store, stop: StopKind, now_ms: i64) -> (res: SyncStep)
        requires
            self.wf(),
            old(store).wf(),
        ensures
            final(store).wf(),
            ({
                let (s, next) = end_walk(old(store)@, self@, stop.model(), now_ms);
                final(store)@ == s && step_is(res, next) && step_wf(res)
            }),
    {
        let mut session = self;
        session.flush(store, now_ms);
        if stop.can_continue() && !session.backward {
            session.go_backward(store, now_ms)
        } else {
            session.finish(store, Some(stop), now_ms)
        }
    }

    fn advance(self, store: &mut Store, now_ms: i64) -> (res: SyncStep)
        requires
            self.wf(),
            old(store).wf(),
        ensures
            final(store).wf(),
            ({
                let (s, next) = advance(old(store)@, self@, now_ms);
                final(store)@ == s && step_is(res, next) && step_wf(res)
            }),
    {
        match self.stop(store) {
            Some(stop) => self.end_walk(store, stop, now_ms),
            None => SyncStep::Fetch(self),
        }
    }

    /// Checks a block against the session's place in the chain.
    fn check_block(&self, cid: &Cid, block: &[u8]) -> (res: Result<EventEnvelope, SyncError>)
        ensures
            match res {
                Ok(e) => checked_block(self@, cid@, block@) matches Ok(m) && m == e@,
                Err(error) => checked_block(self@, cid@, block@) matches Err(f) && f == error@,
            },
    {
        let envelope = match envelope_from_dag_cbor(block) {
            Ok(e) => e,
            Err(text) => return Err(SyncError::Decode(text)),
        };
        if verify_envelope(&envelope).is_err() {
            return Err(SyncError::InvalidSignature);
        }
        match verify_chain_link(&envelope, &self.record.payload.name, self.expected_seq) {
            Ok(()) => Ok(envelope),
            Err(ChainError::WrongAuthor) => Err(SyncError::AuthorMismatch { cid: cid.clone() }),
            Err(ChainError::WrongSeq { expected, got }) => Err(
                SyncError::SeqMismatch { cid: cid.clone(), expected, got },
            ),
            Err(ChainError::BrokenPrev) => Err(SyncError::BrokenChain { cid: cid.clone() }),
        }
    }

    /// Goes on with the block that the session waits for, or without it. What was checked
    /// before is kept in any case.
    pub fn resume(self, store: &mut Store, block: Option<&[u8]>, now_ms: i64) -> (res: SyncStep)
        requires
            self.wf(),
            self.waiting(),
            old(store).wf(),
        ensures
            final(store).wf(),
            ({
                let (s, next) = resumed(
                    old(store)@,
                    self@,
                    match block {
                        Some(b) => Some(b@),
                        None => None,
                    },
                    now_ms,
                );
                final(store)@ == s && step_is(res, next) && step_wf(res)
            }),
    {
        let mut session = self;
        let bytes = match block {
            Some(b) => b,
            None => return session.end_walk(store, StopKind::Unavailable, now_ms),
        };
        let cid = session.wanted();
        match session.check_block(&cid, bytes) {
            Ok(envelope) => {
                let ghost before = session@;
                session.budget = session.budget - 1;
                session.cursor = clone_optional_cid(&envelope.payload.prev);
                session.expected_seq = session.expected_seq.saturating_sub(1);
                session.buffer.push(envelope);
                assert(session@ =~= gathered(before, envelope@));
                if session.buffer.len() >= session.chunk {
                    session.flush(store, now_ms);
                }
                session.advance(store, now_ms)
            },
            Err(error) => {
                session.budget = session.budget - 1;
                session.end_walk(store, StopKind::Invalid(error), now_ms)
            },
        }
    }
}

/// The lowest event that hangs together with the newest event of an account.
fn bottom_of(store: &Store, key: &str) -> (res: Option<(Cid, Option<Cid>, u64)>)
    requires
        store.wf(),
    ensures
        match res {
            Some((cid, prev, seq)) => bottom_event(store@, key@) matches Some(b) && cid@ == event_cid(
                b,
            ) && cid_option(prev) == b.payload.prev && seq == b.payload.seq,
            None => bottom_event(store@, key@) is None,
        },
{
    let res = store.run_bottom_of(key);
    proof {
        if res is Some {
            let i = choose|i: int| #[trigger] is_head_of(store@, key@, i);
            head_event_at(store@, key@, i);
            let r = res->Some_0;
            assert forall|j: int| #[trigger] is_head_of(store@, key@, j) implies j == i by {
                newest_is_unique(store@.events, events_by(key@), i, j);
            }
        } else {
            assert forall|i: int| !is_head_of(store@, key@, i) by {}
        }
    }
    res
}

/// The position of the newest event of an account.
fn head_seq_of(store: &Store, key: &str) -> (res: Option<u64>)
    requires
        store.wf(),
    ensures
        match res {
            Some(seq) => head_event(store@, key@) matches Some(h) && seq == h.payload.seq,
            None => head_event(store@, key@) is None,
        },
{
    match store.get_head(key) {
        Some((seq, _)) => {
            proof {
                let i = choose|i: int| #[trigger] is_head_of(store@, key@, i);
                head_event_at(store@, key@, i);
                assert forall|j: int| #[trigger] is_head_of(store@, key@, j) implies j == i by {
                    newest_is_unique(store@.events, events_by(key@), i, j);
                }
            }
            Some(seq)
        },
        None => {
            assert forall|i: int| !is_head_of(store@, key@, i) by {}
            None
        },
    }
}

/// The floor for a chain that is not known yet.
fn fresh_floor(sequence: u64, window: u64) -> (res: u64)
    ensures
        res == default_floor(sequence, window),
{
    if window == 0 {
        sequence.saturating_add(1)
    } else {
        sequence.saturating_sub(window - 1)
    }
}

/// Takes in a head record and starts the session that fetches its chain. A record that its
/// account did not sign changes nothing. Any other is kept, with the name in it, whatever
/// becomes of the chain.
pub fn handle_head_record_with_limits(
    store: &mut Store,
    record: &IpnsRecord,
    limits: &SyncLimits,
    now_ms: i64,
) -> (res: SyncStep)
    requires
        old(store).wf(),
    ensures
        final(store).wf(),
        ({
            let (s, next) = begun(old(store)@, record@, limits@, now_ms);
            final(store)@ == s && step_is(res, next) && step_wf(res)
        }),
{
    if verify_ipns_record(record).is_err() {
        return SyncStep::Done(Err(SyncError::InvalidSignature));
    }
    let author_hex = bytes_to_hex(record.payload.name.as_slice());
    let key = author_hex.as_str();
    let forks_detected = store.observe_head_record(record, now_ms);
    if !record.payload.display_name.as_str().is_empty() {
        store.fill_display_name_snapshot(
            key,
            record.payload.sequence,
            record.payload.display_name.as_str(),
        );
    }
    let ghost noted = store@;
    assert(noted == record_noted(old(store)@, record@, now_ms));
    let state = store.get_sync_state(key);
    let known = head_seq_of(store, key);
    let fresh = fresh_floor(record.payload.sequence, limits.window);
    let floor = match &state {
        Some(s) => if known.is_some() || s.window_floor_seq >= fresh {
            s.window_floor_seq
        } else {
            fresh
        },
        None => fresh,
    };
    let head_is_there = store.has_block(&record.payload.value);
    let not_newer = match known {
        Some(seq) => record.payload.sequence <= seq,
        None => false,
    };
    let fetched_whole = match &state {
        Some(s) => s.completed,
        None => false,
    };
    if not_newer && fetched_whole && head_is_there {
        return SyncStep::Done(
            Ok(SyncOutcome { new_events: 0, completed: true, forks_detected }),
        );
    }
    let session = SyncSession {
        record: record.clone(),
        author_hex: author_hex.clone(),
        chunk: limits.chunk,
        floor,
        backward: false,
        cursor: Some(record.payload.value.clone()),
        expected_seq: record.payload.sequence,
        budget: limits.budget,
        buffer: Vec::new(),
        new_events: 0,
        forks_detected,
    };
    proof {
        assert(envelope_views(session.buffer@) =~= Seq::<EnvelopeModel>::empty());
        assert(session@ =~= new_session(noted, record@, limits@, forks_detected));
    }
    if head_is_there {
        session.go_backward(store, now_ms)
    } else {
        session.advance(store, now_ms)
    }
}

/// Takes in a head record with the usual limits.
pub fn handle_head_record(store: &mut Store, record: &IpnsRecord, now_ms: i64) -> (res: SyncStep)
    requires
        old(store).wf(),
    ensures
        final(store).wf(),
        ({
            let limits = LimitsModel { window: 500, chunk: 100, budget: 1_000 };
            let (s, next) = begun(old(store)@, record@, limits, now_ms);
            final(store)@ == s && step_is(res, next) && step_wf(res)
        }),
{
    handle_head_record_with_limits(store, record, &SyncLimits::default(), now_ms)
}

} // verus!
