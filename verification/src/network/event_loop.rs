//! What the node does on each message: whom it asks for a block, what it makes of an answer,
//! and how it answers itself.

use crate::cid::{block_cid, bytes_eq, bytes_to_cid, cid_read, sha2_256, Cid};
use crate::dag_cbor::dag_cbor_bytes;
use crate::event::{envelope_block, event_cid};
use crate::head::{
    feed_topic, head_before, record_from_bytes, record_of_bytes, record_payload_tree, record_views,
    IpnsRecord, RecordModel,
};
use crate::identity::{ed25519_key_valid, ed25519_verifies};
use crate::network::ipns::{
    inbound_fault, inbound_record, only_signed_records_stand_under_their_key, record_matches_topic, stale_message, ttl,
    validate_inbound_head_record, AcceptedRecord, DhtRecord,
};
use crate::network::protocol::{response_data, BlockResponse, WantBlock};
use crate::projection::{event_index, has_event};
use crate::store::model::StoreModel;
use crate::store::Store;
use crate::util::hex_text;
use vstd::prelude::*;
use vstd::string::*;
use vstd::utf8::encode_utf8;

verus! {

/// A peer, by the bytes of its identifier.
pub type Peer = Vec<u8>;

/// The views of a list of peers.
pub open spec fn peer_views(peers: Seq<Peer>) -> Seq<Seq<u8>> {
    peers.map_values(|p: Peer| p@)
}

/// A list with those elements of `more` appended that were not in it yet.
pub open spec fn append_new(list: Seq<Seq<u8>>, more: Seq<Seq<u8>>) -> Seq<Seq<u8>>
    decreases more.len(),
{
    if more.len() == 0 {
        list
    } else {
        let before = append_new(list, more.drop_last());
        if before.contains(more.last()) {
            before
        } else {
            before.push(more.last())
        }
    }
}

/// Whom to ask for a block: the preferred peer first, if it is connected, and then every
/// other connected peer.
pub open spec fn ask_order(prefer: Option<Seq<u8>>, connected: Seq<Seq<u8>>) -> Seq<Seq<u8>> {
    let first = match prefer {
        Some(p) => if connected.contains(p) {
            seq![p]
        } else {
            Seq::empty()
        },
        None => Seq::empty(),
    };
    append_new(first, connected)
}

proof fn append_new_facts(list: Seq<Seq<u8>>, more: Seq<Seq<u8>>)
    requires
        list.no_duplicates(),
    ensures
        append_new(list, more).no_duplicates(),
        append_new(list, more).len() >= list.len(),
        append_new(list, more).take(list.len() as int) == list,
        forall|p: Seq<u8>|
            #![trigger append_new(list, more).contains(p)]
            append_new(list, more).contains(p) <==> list.contains(p) || more.contains(p),
    decreases more.len(),
{
    if more.len() == 0 {
        assert(list.take(list.len() as int) =~= list);
    } else {
        let init = more.drop_last();
        let x = more.last();
        append_new_facts(list, init);
        let before = append_new(list, init);
        let after = append_new(list, more);
        assert forall|p: Seq<u8>| after.contains(p) <==> list.contains(p) || more.contains(p) by {
            assert(before.contains(p) <==> list.contains(p) || init.contains(p));
            if init.contains(p) {
                let i = choose|i: int| 0 <= i < init.len() && init[i] == p;
                assert(more[i] == p);
            }
            if more.contains(p) {
                let i = choose|i: int| 0 <= i < more.len() && more[i] == p;
                if i < init.len() {
                    assert(init[i] == p);
                }
            }
            if before.contains(p) {
                let i = choose|i: int| 0 <= i < before.len() && before[i] == p;
                assert(after[i] == p);
            }
            if p == x {
                assert(more[more.len() - 1] == p);
                if !before.contains(x) {
                    assert(after[before.len() as int] == p);
                }
            }
            if after.contains(p) && !before.contains(p) {
                let i = choose|i: int| 0 <= i < after.len() && after[i] == p;
                if i < before.len() {
                    assert(before[i] == p);
                }
            }
        }
        assert(after.take(list.len() as int) =~= before.take(list.len() as int));
        if !before.contains(x) {
            assert forall|i: int, j: int|
                0 <= i < after.len() && 0 <= j < after.len() && i != j implies after[i]
                != after[j] by {
                if i < before.len() && j < before.len() {
                    assert(before[i] != before[j]);
                } else if i < before.len() {
                    assert(before.contains(before[i]));
                } else {
                    assert(before.contains(before[j]));
                }
            }
        }
    }
}

/// Every connected peer is asked, none twice, and the preferred one first if it is connected.
pub proof fn ask_order_covers_connected(prefer: Option<Seq<u8>>, connected: Seq<Seq<u8>>)
    ensures
        ask_order(prefer, connected).no_duplicates(),
        forall|p: Seq<u8>|
            #![trigger ask_order(prefer, connected).contains(p)]
            ask_order(prefer, connected).contains(p) <==> connected.contains(p),
        prefer matches Some(p) ==> connected.contains(p) ==> ask_order(prefer, connected).len() > 0
            && ask_order(prefer, connected)[0] == p,
{
    let first = match prefer {
        Some(p) => if connected.contains(p) {
            seq![p]
        } else {
            Seq::empty()
        },
        None => Seq::empty(),
    };
    append_new_facts(first, connected);
    assert forall|q: Seq<u8>| first.contains(q) implies connected.contains(q) by {}
    if let Some(p) = prefer {
        if connected.contains(p) {
            assert(ask_order(prefer, connected).take(1)[0] == p);
        }
    }
}

fn contains_peer(peers: &Vec<Peer>, peer: &Peer) -> (res: bool)
    ensures
        res == peer_views(peers@).contains(peer@),
{
    let ghost views = peer_views(peers@);
    let mut i: usize = 0;
    while i < peers.len()
        invariant
            i <= peers@.len(),
            views == peer_views(peers@),
            forall|j: int| 0 <= j < i ==> views[j] != peer@,
        decreases peers@.len() - i,
    {
        if bytes_eq(peers[i].as_slice(), peer.as_slice()) {
            assert(views[i as int] == peer@);
            return true;
        }
        i += 1;
    }
    false
}

/// Whom to ask for a block, in order.
pub fn block_candidates(prefer: &Option<Peer>, connected: &Vec<Peer>) -> (res: Vec<Peer>)
    ensures
        peer_views(res@) == ask_order(
            match *prefer {
                Some(p) => Some(p@),
                None => None,
            },
            peer_views(connected@),
        ),
{
    let ghost all = peer_views(connected@);
    let mut res: Vec<Peer> = Vec::new();
    if let Some(p) = prefer {
        if contains_peer(connected, p) {
            res.push(p.clone());
            assert(peer_views(res@) =~= seq![p@]);
        }
    }
    let ghost first = peer_views(res@);
    proof {
        if first.len() == 0 {
            assert(first =~= Seq::<Seq<u8>>::empty());
        }
        assert(all.take(0) =~= Seq::<Seq<u8>>::empty());
    }
    let mut i: usize = 0;
    while i < connected.len()
        invariant
            i <= connected@.len(),
            all == peer_views(connected@),
            peer_views(res@) == append_new(first, all.take(i as int)),
        decreases connected@.len() - i,
    {
        proof {
            assert(all.take(i + 1).drop_last() =~= all.take(i as int));
            assert(all.take(i + 1).last() == connected@[i as int]@);
        }
        if !contains_peer(&res, &connected[i]) {
            let ghost before = peer_views(res@);
            res.push(connected[i].clone());
            assert(peer_views(res@) =~= before.push(connected@[i as int]@));
        }
        i += 1;
    }
    assert(all.take(i as int) =~= all);
    res
}

/// A block that is being fetched: what is wanted, and who has not been asked yet.
pub struct PendingBlock {
    pub cid: Cid,
    pub remaining: Vec<Peer>,
}

/// The view of a block that is being fetched.
pub struct PendingModel {
    pub cid: Seq<u8>,
    pub remaining: Seq<Seq<u8>>,
}

impl View for PendingBlock {
    type V = PendingModel;

    open spec fn view(&self) -> PendingModel {
        PendingModel { cid: self.cid@, remaining: peer_views(self.remaining@) }
    }
}

/// What to do next for a block.
pub enum BlockStep {
    /// Ask `peer`.
    Ask { peer: Peer, request: WantBlock, pending: PendingBlock },
    /// Hand out the block, whose CID is the one that was wanted.
    Deliver { data: Vec<u8> },
    /// Nobody is left to ask.
    GiveUp,
}

/// How the fetching of a block goes on.
pub enum Progress {
    /// A peer is asked, and the others wait.
    Ask { peer: Seq<u8>, pending: PendingModel },
    /// It has come to an end, with the block or without it.
    Done(Option<Seq<u8>>),
}

/// Whether a step does what `progress` says, and asks for the wanted block.
pub open spec fn step_takes(step: BlockStep, progress: Progress) -> bool {
    match step {
        BlockStep::Ask { peer, request, pending } => progress == (Progress::Ask {
            peer: peer@,
            pending: pending@,
        }) && request.cid_bytes@ == pending@.cid,
        BlockStep::Deliver { data } => progress == Progress::Done(Some(data@)),
        BlockStep::GiveUp => progress == Progress::Done(None),
    }
}

/// The first of those who have not been asked yet is asked; if there is none, it is over.
pub open spec fn next_ask(p: PendingModel) -> Progress {
    if p.remaining.len() == 0 {
        Progress::Done(None)
    } else {
        Progress::Ask {
            peer: p.remaining[0],
            pending: PendingModel { cid: p.cid, remaining: p.remaining.skip(1) },
        }
    }
}

/// A block with the wanted CID ends the search; after any other answer, or none, the next
/// peer is asked.
pub open spec fn after_answer(p: PendingModel, answer: Option<Seq<u8>>) -> Progress {
    match answer {
        Some(data) => if block_cid(data) == p.cid {
            Progress::Done(Some(data))
        } else {
            next_ask(p)
        },
        None => next_ask(p),
    }
}

/// Asks the next peer for a block, or gives up if none is left.
pub fn request_block_from_next(cid: Cid, remaining: Vec<Peer>) -> (res: BlockStep)
    ensures
        step_takes(res, next_ask(PendingModel { cid: cid@, remaining: peer_views(remaining@) })),
{
    if remaining.len() == 0 {
        return BlockStep::GiveUp;
    }
    let ghost views = peer_views(remaining@);
    let mut rest = remaining;
    let peer = rest.remove(0);
    proof {
        assert(views[0] == peer@);
        assert(peer_views(rest@) =~= views.skip(1));
    }
    let request = WantBlock { cid_bytes: cid.to_bytes() };
    BlockStep::Ask { peer, request, pending: PendingBlock { cid, remaining: rest } }
}

/// The block in a response, if its content is that of the wanted CID.
pub fn verify_block_response(response: BlockResponse, expected_cid: &Cid) -> (res: Option<Vec<u8>>)
    ensures
        match res {
            Some(data) => response_data(response) == Some(data@) && block_cid(data@)
                == expected_cid@,
            None => response_data(response) matches Some(d) ==> block_cid(d) != expected_cid@,
        },
{
    match response {
        BlockResponse::NotFound => None,
        BlockResponse::Found { data } => {
            let computed = bytes_to_cid(data.as_slice());
            if computed.same(expected_cid) {
                Some(data)
            } else {
                None
            }
        },
    }
}

/// What to do with a peer's answer: hand out the block if it is the one, and otherwise ask
/// the next peer.
pub fn handle_block_response(pending: PendingBlock, response: BlockResponse) -> (res: BlockStep)
    ensures
        step_takes(res, after_answer(pending@, response_data(response))),
{
    match verify_block_response(response, &pending.cid) {
        Some(data) => BlockStep::Deliver { data },
        None => request_block_from_next(pending.cid, pending.remaining),
    }
}

/// What to do when a peer could not be reached: ask the next one.
pub fn handle_outbound_failure(pending: PendingBlock) -> (res: BlockStep)
    ensures
        step_takes(res, after_answer(pending@, None)),
{
    request_block_from_next(pending.cid, pending.remaining)
}

/// What comes of a search in which each peer gives the answer that `answers` says.
pub open spec fn outcome(
    progress: Progress,
    answers: spec_fn(Seq<u8>) -> Option<Seq<u8>>,
) -> Option<Seq<u8>>
    decreases
            match progress {
                Progress::Ask { peer, pending } => pending.remaining.len() + 1,
                Progress::Done(_) => 0,
            },
{
    match progress {
        Progress::Ask { peer, pending } => outcome(after_answer(pending, answers(peer)), answers),
        Progress::Done(data) => data,
    }
}

/// Whether a peer has the block.
pub open spec fn holds_block(
    answers: spec_fn(Seq<u8>) -> Option<Seq<u8>>,
    peer: Seq<u8>,
    cid: Seq<u8>,
) -> bool {
    answers(peer) matches Some(data) && block_cid(data) == cid
}

proof fn search_finds_holder(
    cid: Seq<u8>,
    peers: Seq<Seq<u8>>,
    answers: spec_fn(Seq<u8>) -> Option<Seq<u8>>,
)
    ensures
        match outcome(next_ask(PendingModel { cid, remaining: peers }), answers) {
            Some(data) => block_cid(data) == cid && exists|p: Seq<u8>|
                peers.contains(p) && #[trigger] answers(p) == Some(data),
            None => forall|p: Seq<u8>|
                peers.contains(p) ==> !(#[trigger] holds_block(answers, p, cid)),
        },
    decreases peers.len(),
{
    let all = PendingModel { cid, remaining: peers };
    if peers.len() > 0 {
        let first = peers[0];
        let rest = peers.skip(1);
        let pending = PendingModel { cid, remaining: rest };
        assert(next_ask(all) == (Progress::Ask { peer: first, pending }));
        assert(peers.contains(first));
        if !holds_block(answers, first, cid) {
            assert(after_answer(pending, answers(first)) == next_ask(pending));
            search_finds_holder(cid, rest, answers);
            assert forall|p: Seq<u8>| peers.contains(p) implies p == first || rest.contains(p) by {
                let i = choose|i: int| 0 <= i < peers.len() && peers[i] == p;
                if i > 0 {
                    assert(rest[i - 1] == p);
                }
            }
            assert forall|p: Seq<u8>| rest.contains(p) implies peers.contains(p) by {
                let i = choose|i: int| 0 <= i < rest.len() && rest[i] == p;
                assert(peers[i + 1] == p);
            }
        } else {
            let data = answers(first)->0;
            assert(outcome(Progress::Done(Some(data)), answers) == Some(data));
        }
    }
}

/// As long as some connected peer has a block, the node gets it, whoever else is connected
/// and whoever is preferred. What it gets is what a connected peer sent, and the block that
/// was wanted.
pub proof fn connected_holder_is_found(
    cid: Seq<u8>,
    prefer: Option<Seq<u8>>,
    connected: Seq<Seq<u8>>,
    answers: spec_fn(Seq<u8>) -> Option<Seq<u8>>,
)
    ensures
        ({
            let start = PendingModel { cid, remaining: ask_order(prefer, connected) };
            match outcome(next_ask(start), answers) {
                Some(data) => block_cid(data) == cid && exists|p: Seq<u8>|
                    connected.contains(p) && #[trigger] answers(p) == Some(data),
                None => forall|p: Seq<u8>|
                    connected.contains(p) ==> !(#[trigger] holds_block(answers, p, cid)),
            }
        }),
{
    ask_order_covers_connected(prefer, connected);
    search_finds_holder(cid, ask_order(prefer, connected), answers);
    let start = PendingModel { cid, remaining: ask_order(prefer, connected) };
    match outcome(next_ask(start), answers) {
        Some(data) => {
            let p = choose|p: Seq<u8>|
                ask_order(prefer, connected).contains(p) && #[trigger] answers(p) == Some(data);
            assert(connected.contains(p));
        },
        None => {},
    }
}

/// The block that a store holds under a CID, given by its binary form.
pub open spec fn held_block(store: StoreModel, cid_bytes: Seq<u8>) -> Option<Seq<u8>> {
    match cid_read(cid_bytes) {
        Some(cid) => if has_event(store.events, cid) {
            Some(envelope_block(store.events[event_index(store.events, cid)]))
        } else {
            None
        },
        None => None,
    }
}

/// Answers a peer's request from the store.
pub fn answer_want_block(store: &Store, request: &WantBlock) -> (res: BlockResponse)
    requires
        store.wf(),
    ensures
        response_data(res) == held_block(store@, request.cid_bytes@),
{
    match Cid::from_bytes(request.cid_bytes.as_slice()) {
        Some(cid) => match store.block_of(&cid) {
            Some(data) => BlockResponse::Found { data },
            None => BlockResponse::NotFound,
        },
        None => BlockResponse::NotFound,
    }
}

/// A block that the store answers with passes the check of the peer that asked for it.
pub proof fn answered_blocks_verify(store: &Store, cid: Seq<u8>)
    requires
        store.wf(),
        has_event(store@.events, cid),
    ensures
        block_cid(envelope_block(store@.events[event_index(store@.events, cid)])) == cid,
{
    let i = event_index(store@.events, cid);
    assert(0 <= i < store@.events.len() && event_cid(store@.events[i]) == cid);
}

/// Why an announcement is dropped.
#[derive(Debug, PartialEq, Eq)]
pub enum GossipError {
    /// It holds no record.
    Undecodable(String),
    /// It holds a record of another account than the one of the topic.
    WrongTopic,
}

/// Whether `res` is what becomes of an announcement: the record in it, if there is one and it
/// belongs on the topic.
pub open spec fn announces(
    topic: Seq<char>,
    data: Seq<u8>,
    res: Result<IpnsRecord, GossipError>,
) -> bool {
    match res {
        Ok(r) => (record_of_bytes(data) matches Ok(m) && m == r@) && feed_topic(
            hex_text(r@.payload.name),
        ) == topic,
        Err(GossipError::Undecodable(text)) => record_of_bytes(data) matches Err(m) && text@
            == "failed to decode IPNS head record: "@ + m,
        Err(GossipError::WrongTopic) => record_of_bytes(data) matches Ok(m) && feed_topic(
            hex_text(m.payload.name),
        ) != topic,
    }
}

/// The record in an announcement, if it belongs on the topic. Its signature is checked where
/// it is used.
pub fn handle_gossip(topic: &str, data: &[u8]) -> (res: Result<IpnsRecord, GossipError>)
    ensures
        announces(topic@, data@, res),
{
    match record_from_bytes(data) {
        Ok(record) => if record_matches_topic(&record, topic) {
            Ok(record)
        } else {
            Err(GossipError::WrongTopic)
        },
        Err(e) => Err(GossipError::Undecodable(e.to_string())),
    }
}

/// The sequence and validity of the record that is kept, if it decodes.
pub open spec fn kept_head(existing: Option<Seq<u8>>) -> Option<(u64, i64)> {
    match existing {
        Some(bytes) => match record_of_bytes(bytes) {
            Ok(r) => Some((r.payload.sequence, r.payload.validity)),
            Err(_) => None,
        },
        None => None,
    }
}

/// Whether `res` is the decision on a record that another node puts into the hash table under
/// `key`, given the value that is kept there. The record is accepted if nothing is wrong with
/// it and it is newer than the one that is kept.
pub open spec fn put_decided(
    key: Seq<u8>,
    value: Seq<u8>,
    existing: Option<Seq<u8>>,
    now_ms: i64,
    res: Result<AcceptedRecord, String>,
) -> bool {
    let fault = inbound_fault(key, value);
    let r = inbound_record(value);
    let kept = kept_head(existing);
    match res {
        Ok(a) => {
            &&& fault is None
            &&& kept matches Some((s, v)) ==> head_before(
                s,
                v,
                r.payload.sequence,
                r.payload.validity,
            )
            &&& a.key@ == key
            &&& a.value@ == value
            &&& a.ttl_ms == ttl(r.payload.validity, now_ms)
        },
        Err(text) => match fault {
            Some(f) => text@ == f,
            None => kept matches Some((s, v)) && !head_before(
                s,
                v,
                r.payload.sequence,
                r.payload.validity,
            ) && text@ == stale_message(r, s, v),
        },
    }
}

/// Decides on a record that another node puts into the hash table, given the value that is
/// kept under its key. A kept value that does not decode is no obstacle.
pub fn handle_inbound_put(record: &DhtRecord, existing: Option<&[u8]>, now_ms: i64) -> (res: Result<
    AcceptedRecord,
    String,
>)
    ensures
        put_decided(
            record.key@,
            record.value@,
            match existing {
                Some(b) => Some(b@),
                None => None,
            },
            now_ms,
            res,
        ),
{
    let kept = match existing {
        Some(bytes) => match record_from_bytes(bytes) {
            Ok(r) => Some((r.payload.sequence, r.payload.validity)),
            Err(_) => None,
        },
        None => None,
    };
    validate_inbound_head_record(record, kept, now_ms)
}

/// The candidates with the record in `value` behind them, if there is one in it.
pub open spec fn with_candidate(candidates: Seq<RecordModel>, value: Seq<u8>) -> Seq<RecordModel> {
    match record_of_bytes(value) {
        Ok(r) => candidates.push(r),
        Err(_) => candidates,
    }
}

/// Takes a value that the hash table gave into the candidates; one that holds no record is
/// dropped.
pub fn collect_candidate(candidates: &mut Vec<IpnsRecord>, value: &[u8])
    ensures
        record_views(final(candidates)@) == with_candidate(record_views(old(candidates)@), value@),
{
    if let Ok(r) = record_from_bytes(value) {
        let ghost before = record_views(candidates@);
        candidates.push(r);
        assert(record_views(candidates@) =~= before.push(r@));
    }
}

/// A peer's request is answered with the block of the event that has the CID, if there is one,
/// and otherwise with nothing.
pub proof fn answer_is_the_block_that_is_held(s: StoreModel, cid_bytes: Seq<u8>)
    ensures
        match cid_read(cid_bytes) {
            Some(cid) => match held_block(s, cid_bytes) {
                Some(block) => exists|i: int|
                    0 <= i < s.events.len() && event_cid(#[trigger] s.events[i]) == cid && block
                        == envelope_block(s.events[i]),
                None => forall|i: int|
                    0 <= i < s.events.len() ==> event_cid(#[trigger] s.events[i]) != cid,
            },
            None => held_block(s, cid_bytes) is None,
        },
{
    if let Some(cid) = cid_read(cid_bytes) {
        if has_event(s.events, cid) {
            let i = event_index(s.events, cid);
            assert(event_cid(s.events[i]) == cid);
        }
    }
}

/// A record is accepted into the hash table if and only if it carries the signature of its
/// account, stands under its account's key, and the value that is kept there holds no record as
/// new: none with a higher sequence, or with the same and the same or a later validity. It is
/// kept whole, until its validity.
pub proof fn put_is_accepted_if_signed_and_newer(
    key: Seq<u8>,
    value: Seq<u8>,
    existing: Option<Seq<u8>>,
    now_ms: i64,
    res: Result<AcceptedRecord, String>,
)
    requires
        put_decided(key, value, existing, now_ms, res),
    ensures
        res is Ok <==> (record_of_bytes(value) matches Ok(r) && {
            &&& ed25519_key_valid(r.payload.name)
            &&& ed25519_verifies(
                r.payload.name,
                dag_cbor_bytes(record_payload_tree(r.payload)),
                r.signature,
            )
            &&& key == encode_utf8("/deilephila/head/"@ + hex_text(r.payload.name))
            &&& existing matches Some(bytes) ==> (record_of_bytes(bytes) matches Ok(k)
                ==> k.payload.sequence < r.payload.sequence || (k.payload.sequence
                == r.payload.sequence && k.payload.validity < r.payload.validity))
        }),
        res matches Ok(a) ==> a.key@ == key && a.value@ == value,
{
    only_signed_records_stand_under_their_key(key, value);
}

/// An announcement is passed on if and only if it holds a record and came on the topic of the
/// account that the record names.
pub proof fn announcement_belongs_to_its_topic(
    topic: Seq<char>,
    data: Seq<u8>,
    res: Result<IpnsRecord, GossipError>,
)
    requires
        announces(topic, data, res),
    ensures
        res is Ok <==> (record_of_bytes(data) matches Ok(r) && topic == "deilephila/feed/"@
            + hex_text(r.payload.name)),
        res matches Ok(r) ==> record_of_bytes(data) == Ok::<RecordModel, Seq<char>>(r@),
{
}

/// The values of a query are gathered in order: each that holds a record adds that record.
pub proof fn found_record_is_added(candidates: Seq<RecordModel>, value: Seq<u8>)
    ensures
        record_of_bytes(value) matches Ok(r) ==> with_candidate(candidates, value)
            == candidates.push(r),
        record_of_bytes(value) is Err ==> with_candidate(candidates, value) == candidates,
{
}

/// After an answer the search ends with the block if and only if the answer holds a block whose
/// CID is the wanted one; otherwise the first of those who wait is asked for the same block and
/// the others wait on, and without any the search ends with nothing.
pub proof fn search_ends_with_the_wanted_block(p: PendingModel, answer: Option<Seq<u8>>)
    ensures
        ({
            let found = answer matches Some(d) && seq![1u8, 0x71u8, 0x12u8, 0x20u8] + sha2_256(d)
                == p.cid;
            &&& found ==> after_answer(p, answer) == Progress::Done(answer)
            &&& !found && p.remaining.len() == 0 ==> after_answer(p, answer) == Progress::Done(None)
            &&& !found && p.remaining.len() > 0 ==> (after_answer(p, answer) matches Progress::Ask {
                peer,
                pending,
            } && peer == p.remaining[0] && pending.cid == p.cid && pending.remaining
                == p.remaining.skip(1))
        }),
{
}

proof fn append_new_of_new(list: Seq<Seq<u8>>, more: Seq<Seq<u8>>)
    requires
        more.no_duplicates(),
        forall|i: int| 0 <= i < more.len() ==> !list.contains(#[trigger] more[i]),
    ensures
        append_new(list, more) == list + more,
    decreases more.len(),
{
    if more.len() > 0 {
        let init = more.drop_last();
        append_new_of_new(list, init);
        let before = list + init;
        if before.contains(more.last()) {
            let i = choose|i: int| 0 <= i < before.len() && before[i] == more.last();
            if i < list.len() {
                assert(list.contains(more.last()));
                assert(!list.contains(more[more.len() - 1]));
            } else {
                assert(more[i - list.len()] == more[more.len() - 1]);
            }
        }
        assert(before.push(more.last()) =~= list + more);
    } else {
        assert(list + more =~= list);
    }
}

proof fn append_new_around(p: Seq<u8>, connected: Seq<Seq<u8>>, k: int)
    requires
        connected.no_duplicates(),
        0 <= k < connected.len(),
        connected[k] == p,
    ensures
        append_new(seq![p], connected) == seq![p] + connected.take(k) + connected.skip(k + 1),
    decreases connected.len(),
{
    let init = connected.drop_last();
    if k == connected.len() - 1 {
        assert forall|i: int| 0 <= i < init.len() implies !seq![p].contains(#[trigger] init[i]) by {
            assert(connected[i] != connected[k]);
        }
        append_new_of_new(seq![p], init);
        assert((seq![p] + init)[0] == connected.last());
        assert(seq![p] + connected.take(k) + connected.skip(k + 1) =~= seq![p] + init);
    } else {
        append_new_around(p, init, k);
        let before = seq![p] + init.take(k) + init.skip(k + 1);
        let x = connected.last();
        if before.contains(x) {
            let i = choose|i: int| 0 <= i < before.len() && before[i] == x;
            if i == 0 {
                assert(connected[k] == connected[connected.len() - 1]);
            } else if i <= k {
                assert(connected[i - 1] == connected[connected.len() - 1]);
            } else {
                assert(connected[i] == connected[connected.len() - 1]);
            }
        }
        assert(before.push(x) =~= seq![p] + connected.take(k) + connected.skip(k + 1));
    }
}

/// The preferred peer is asked first and the others in the order in which they are connected;
/// without a preferred peer among them, all of them in that order.
pub proof fn peers_are_asked_in_order(prefer: Option<Seq<u8>>, connected: Seq<Seq<u8>>)
    requires
        connected.no_duplicates(),
    ensures
        forall|k: int|
            0 <= k < connected.len() && prefer == Some(#[trigger] connected[k]) ==> ask_order(
                prefer,
                connected,
            ) == seq![connected[k]] + connected.take(k) + connected.skip(k + 1),
        (forall|k: int| 0 <= k < connected.len() ==> prefer != Some(#[trigger] connected[k]))
            ==> ask_order(prefer, connected) == connected,
{
    assert forall|k: int|
        0 <= k < connected.len() && prefer == Some(#[trigger] connected[k]) implies ask_order(
        prefer,
        connected,
    ) == seq![connected[k]] + connected.take(k) + connected.skip(k + 1) by {
        append_new_around(connected[k], connected, k);
    }
    append_new_of_new(Seq::empty(), connected);
    assert(Seq::<Seq<u8>>::empty() + connected =~= connected);
}

} // verus!
