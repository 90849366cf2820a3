//! The network loop: from what happened to what is to be done.

use crate::cid::{block_cid, cid_read, sha2_256, Cid};
use crate::event::{envelope_block, event_cid};
use crate::head::{
    feed_topic, feed_topic_str, record_block, record_views, IpnsRecord, RecordModel,
};
use crate::network::event_loop::{
    after_answer, announces, answer_is_the_block_that_is_held, answer_want_block, ask_order,
    ask_order_covers_connected, block_candidates, collect_candidate,
    handle_block_response, handle_gossip, handle_inbound_put, handle_outbound_failure, held_block,
    next_ask, peer_views, put_decided, request_block_from_next, search_ends_with_the_wanted_block,
    with_candidate, BlockStep,
    GossipError, Peer, PendingBlock, PendingModel, Progress,
};
use crate::network::ipns::{head_key, head_record_key, AcceptedRecord, DhtRecord};
use crate::network::pending::Slots;
use crate::network::protocol::{response_data, BlockResponse, WantBlock};
use crate::network::{publish_head_record, publishes, Publication};
use crate::store::model::StoreModel;
use crate::store::Store;
use crate::util::hex_text;
use vstd::prelude::*;
use vstd::utf8::encode_utf8;

verus! {

/// What the loop is told: the commands of the node itself, and what comes from other nodes.
pub enum LoopInput {
    /// A block is wanted.
    GetBlock { cid: Cid, prefer: Option<Peer>, connected: Vec<Peer> },
    /// A head record is to go out.
    PublishHead { record: IpnsRecord, now_ms: i64 },
    /// The head records of an account are wanted.
    ResolveIpns { pubkey: [u8; 32] },
    /// The announcements of an account are wanted.
    Subscribe { pubkey_hex: String },
    /// The announcements of an account are no longer wanted.
    Unsubscribe { pubkey_hex: String },
    /// A peer wants a block.
    WantBlock { request: WantBlock },
    /// The peer that was asked for the block of a slot has answered.
    BlockAnswer { slot: usize, response: BlockResponse },
    /// The peer that was asked for the block of a slot could not be reached.
    BlockFailure { slot: usize },
    /// An announcement has come.
    Gossip { topic: String, data: Vec<u8> },
    /// Another node puts a record into the hash table, where `existing` is kept.
    InboundPut { put: DhtRecord, existing: Option<Vec<u8>>, now_ms: i64 },
    /// The query of a slot has found a value.
    FoundRecord { slot: usize, value: Vec<u8> },
    /// The query of a slot has come to its end.
    QueryEnded { slot: usize },
}

/// What the loop has to do.
pub enum LoopAction {
    /// Nothing.
    Idle,
    /// Ask a peer for the block of a slot.
    Ask { slot: usize, peer: Peer, request: WantBlock },
    /// Hand the block to whoever wanted it, or say that nobody has it.
    BlockDone { data: Option<Vec<u8>> },
    /// Announce a record and put it into the hash table.
    Publish { publication: Publication },
    /// Query the hash table on behalf of a slot.
    Query { slot: usize, key: Vec<u8> },
    /// Take part in a topic.
    Join { topic: String },
    /// Leave a topic.
    Leave { topic: String },
    /// Answer the peer that wants a block.
    Respond { response: BlockResponse },
    /// Pass on what came of an announcement.
    Announcement { record: Result<IpnsRecord, GossipError> },
    /// Keep the record in the hash table, or refuse it.
    PutDecision { decision: Result<AcceptedRecord, String> },
    /// Hand the records to whoever wanted them.
    Resolved { candidates: Vec<IpnsRecord> },
}

/// What is under way.
pub struct SwarmState {
    blocks: Slots<PendingBlock>,
    resolves: Slots<Vec<IpnsRecord>>,
}

/// What is under way, by slots: the blocks that are being fetched, and the records that the
/// queries have found so far.
#[verifier::ext_equal]
pub struct SwarmModel {
    pub blocks: Map<usize, PendingModel>,
    pub resolves: Map<usize, Seq<RecordModel>>,
}

/// The views of the blocks that are being fetched.
pub open spec fn block_views(blocks: Map<usize, PendingBlock>) -> Map<usize, PendingModel> {
    Map::new(|i: usize| blocks.dom().contains(i), |i: usize| blocks[i]@)
}

/// The views of the records that the queries have found.
pub open spec fn query_views(resolves: Map<usize, Vec<IpnsRecord>>) -> Map<
    usize,
    Seq<RecordModel>,
> {
    Map::new(|i: usize| resolves.dom().contains(i), |i: usize| record_views(resolves[i]@))
}

impl View for SwarmState {
    type V = SwarmModel;

    closed spec fn view(&self) -> SwarmModel {
        SwarmModel { blocks: block_views(self.blocks@), resolves: query_views(self.resolves@) }
    }
}

/// Whether the block of a slot goes on as `progress` says: a peer is asked, or the slot is
/// given up and the outcome handed out.
pub open spec fn block_goes_on(
    before: SwarmModel,
    slot: usize,
    progress: Progress,
    action: LoopAction,
    after: SwarmModel,
) -> bool {
    match progress {
        Progress::Ask { peer, pending } => {
            &&& action matches LoopAction::Ask { slot: s, peer: p, request }
            &&& s == slot
            &&& p@ == peer
            &&& request.cid_bytes@ == pending.cid
            &&& after == (SwarmModel { blocks: before.blocks.insert(slot, pending), ..before })
        },
        Progress::Done(found) => {
            &&& action matches LoopAction::BlockDone { data }
            &&& found == match data {
                Some(d) => Some(d@),
                None => None,
            }
            &&& after == (SwarmModel { blocks: before.blocks.remove(slot), ..before })
        },
    }
}

/// Whether an answer for a slot is dealt with: the block goes on, unless nothing is under way
/// in the slot.
pub open spec fn answer_is_taken(
    before: SwarmModel,
    slot: usize,
    answer: Option<Seq<u8>>,
    action: LoopAction,
    after: SwarmModel,
) -> bool {
    if before.blocks.dom().contains(slot) {
        block_goes_on(before, slot, after_answer(before.blocks[slot], answer), action, after)
    } else {
        action is Idle && after == before
    }
}

/// Whether `action` and `after` are what follows from `input`.
pub open spec fn follows(
    before: SwarmModel,
    store: StoreModel,
    input: LoopInput,
    action: LoopAction,
    after: SwarmModel,
) -> bool {
    match input {
        LoopInput::GetBlock { cid, prefer, connected } => {
            let start = PendingModel {
                cid: cid@,
                remaining: ask_order(
                    match prefer {
                        Some(p) => Some(p@),
                        None => None,
                    },
                    peer_views(connected@),
                ),
            };
            match next_ask(start) {
                Progress::Ask { .. } => {
                    &&& action matches LoopAction::Ask { slot, peer, request }
                    &&& !before.blocks.dom().contains(slot)
                    &&& block_goes_on(before, slot, next_ask(start), action, after)
                },
                Progress::Done(_) => {
                    &&& action matches LoopAction::BlockDone { data }
                    &&& data is None
                    &&& after == before
                },
            }
        },
        LoopInput::PublishHead { record, now_ms } => {
            &&& action matches LoopAction::Publish { publication }
            &&& publishes(publication, record@, now_ms)
            &&& after == before
        },
        LoopInput::ResolveIpns { pubkey } => {
            &&& action matches LoopAction::Query { slot, key }
            &&& !before.resolves.dom().contains(slot)
            &&& key@ == head_key(pubkey@)
            &&& after == (SwarmModel {
                resolves: before.resolves.insert(slot, Seq::empty()),
                ..before
            })
        },
        LoopInput::Subscribe { pubkey_hex } => {
            &&& action matches LoopAction::Join { topic }
            &&& topic@ == feed_topic(pubkey_hex@)
            &&& after == before
        },
        LoopInput::Unsubscribe { pubkey_hex } => {
            &&& action matches LoopAction::Leave { topic }
            &&& topic@ == feed_topic(pubkey_hex@)
            &&& after == before
        },
        LoopInput::WantBlock { request } => {
            &&& action matches LoopAction::Respond { response }
            &&& response_data(response) == held_block(store, request.cid_bytes@)
            &&& after == before
        },
        LoopInput::BlockAnswer { slot, response } => answer_is_taken(
            before,
            slot,
            response_data(response),
            action,
            after,
        ),
        LoopInput::BlockFailure { slot } => answer_is_taken(before, slot, None, action, after),
        LoopInput::Gossip { topic, data } => {
            &&& action matches LoopAction::Announcement { record }
            &&& announces(topic@, data@, record)
            &&& after == before
        },
        LoopInput::InboundPut { put, existing, now_ms } => {
            &&& action matches LoopAction::PutDecision { decision }
            &&& put_decided(
                put.key@,
                put.value@,
                match existing {
                    Some(b) => Some(b@),
                    None => None,
                },
                now_ms,
                decision,
            )
            &&& after == before
        },
        LoopInput::FoundRecord { slot, value } => {
            &&& action is Idle
            &&& after == if before.resolves.dom().contains(slot) {
                SwarmModel {
                    resolves: before.resolves.insert(
                        slot,
                        with_candidate(before.resolves[slot], value@),
                    ),
                    ..before
                }
            } else {
                before
            }
        },
        LoopInput::QueryEnded { slot } => if before.resolves.dom().contains(slot) {
            &&& action matches LoopAction::Resolved { candidates }
            &&& record_views(candidates@) == before.resolves[slot]
            &&& after == (SwarmModel { resolves: before.resolves.remove(slot), ..before })
        } else {
            action is Idle && after == before
        },
    }
}

impl SwarmState {
    /// Nothing under way.
    pub fn new() -> (res: Self)
        ensures
            res@.blocks == Map::<usize, PendingModel>::empty(),
            res@.resolves == Map::<usize, Seq<RecordModel>>::empty(),
    {
        let res = SwarmState { blocks: Slots::new(), resolves: Slots::new() };
        assert(res@.blocks =~= Map::<usize, PendingModel>::empty());
        assert(res@.resolves =~= Map::<usize, Seq<RecordModel>>::empty());
        res
    }

    /// Begins to fetch a block.
    fn get_block(&mut self, cid: Cid, candidates: Vec<Peer>) -> (action: LoopAction)
        ensures
            ({
                let start = PendingModel { cid: cid@, remaining: peer_views(candidates@) };
                match next_ask(start) {
                    Progress::Ask { .. } => {
                        &&& action matches LoopAction::Ask { slot, peer, request }
                        &&& !old(self)@.blocks.dom().contains(slot)
                        &&& block_goes_on(
                            old(self)@,
                            slot,
                            next_ask(start),
                            action,
                            final(self)@,
                        )
                    },
                    Progress::Done(_) => {
                        &&& action matches LoopAction::BlockDone { data }
                        &&& data is None
                        &&& final(self)@ == old(self)@
                    },
                }
            }),
    {
        match request_block_from_next(cid, candidates) {
            BlockStep::Ask { peer, request, pending } => {
                let ghost model = pending@;
                let slot = self.blocks.insert(pending);
                assert(self@.blocks =~= old(self)@.blocks.insert(slot, model));
                LoopAction::Ask { slot, peer, request }
            },
            BlockStep::Deliver { data } => LoopAction::BlockDone { data: Some(data) },
            BlockStep::GiveUp => LoopAction::BlockDone { data: None },
        }
    }

    /// Goes on with the block of a slot after an answer, or after a failure to get one.
    fn take_answer(&mut self, slot: usize, answer: Option<BlockResponse>) -> (action: LoopAction)
        ensures
            answer_is_taken(
                old(self)@,
                slot,
                match answer {
                    Some(response) => response_data(response),
                    None => None,
                },
                action,
                final(self)@,
            ),
    {
        let pending = match self.blocks.take(slot) {
            Some(pending) => pending,
            None => return LoopAction::Idle,
        };
        assert(self@.blocks =~= old(self)@.blocks.remove(slot));
        let step = match answer {
            Some(response) => handle_block_response(pending, response),
            None => handle_outbound_failure(pending),
        };
        match step {
            BlockStep::Ask { peer, request, pending } => {
                let ghost model = pending@;
                self.blocks.put_back(slot, pending);
                assert(self@.blocks =~= old(self)@.blocks.insert(slot, model));
                LoopAction::Ask { slot, peer, request }
            },
            BlockStep::Deliver { data } => LoopAction::BlockDone { data: Some(data) },
            BlockStep::GiveUp => LoopAction::BlockDone { data: None },
        }
    }

    /// Takes a value that the query of a slot has found into its candidates.
    fn found_record(&mut self, slot: usize, value: &[u8])
        ensures
            final(self)@ == if old(self)@.resolves.dom().contains(slot) {
                SwarmModel {
                    resolves: old(self)@.resolves.insert(
                        slot,
                        with_candidate(old(self)@.resolves[slot], value@),
                    ),
                    ..old(self)@
                }
            } else {
                old(self)@
            },
    {
        if let Some(found) = self.resolves.take(slot) {
            let mut candidates = found;
            collect_candidate(&mut candidates, value);
            let ghost model = record_views(candidates@);
            self.resolves.put_back(slot, candidates);
            assert(self@.resolves =~= old(self)@.resolves.insert(slot, model));
        }
    }

    /// What follows from an input.
    pub fn step(&mut self, store: &Store, input: LoopInput) -> (action: LoopAction)
        requires
            store.wf(),
        ensures
            follows(old(self)@, store@, input, action, final(self)@),
    {
        match input {
            LoopInput::GetBlock { cid, prefer, connected } => {
                let candidates = block_candidates(&prefer, &connected);
                self.get_block(cid, candidates)
            },
            LoopInput::PublishHead { record, now_ms } => LoopAction::Publish {
                publication: publish_head_record(&record, now_ms),
            },
            LoopInput::ResolveIpns { pubkey } => {
                let slot = self.resolves.insert(Vec::new());
                proof {
                    assert(record_views(Seq::<IpnsRecord>::empty()) =~= Seq::empty());
                    assert(self@.resolves =~= old(self)@.resolves.insert(slot, Seq::empty()));
                }
                LoopAction::Query { slot, key: head_record_key(&pubkey) }
            },
            LoopInput::Subscribe { pubkey_hex } => LoopAction::Join {
                topic: feed_topic_str(pubkey_hex.as_str()),
            },
            LoopInput::Unsubscribe { pubkey_hex } => LoopAction::Leave {
                topic: feed_topic_str(pubkey_hex.as_str()),
            },
            LoopInput::WantBlock { request } => LoopAction::Respond {
                response: answer_want_block(store, &request),
            },
            LoopInput::BlockAnswer { slot, response } => self.take_answer(slot, Some(response)),
            LoopInput::BlockFailure { slot } => self.take_answer(slot, None),
            LoopInput::Gossip { topic, data } => LoopAction::Announcement {
                record: handle_gossip(topic.as_str(), data.as_slice()),
            },
            LoopInput::InboundPut { put, existing, now_ms } => {
                let decision = match &existing {
                    Some(b) => handle_inbound_put(&put, Some(b.as_slice()), now_ms),
                    None => handle_inbound_put(&put, None, now_ms),
                };
                LoopAction::PutDecision { decision }
            },
            LoopInput::FoundRecord { slot, value } => {
                self.found_record(slot, value.as_slice());
                LoopAction::Idle
            },
            LoopInput::QueryEnded { slot } => match self.resolves.take(slot) {
                Some(candidates) => {
                    assert(self@.resolves =~= old(self)@.resolves.remove(slot));
                    LoopAction::Resolved { candidates }
                },
                None => LoopAction::Idle,
            },
        }
    }
}

/// Whether an input is about the block of a slot.
pub open spec fn is_answer_for(input: LoopInput, slot: usize) -> bool {
    ||| input matches LoopInput::BlockAnswer { slot: s, .. } && s == slot
    ||| input matches LoopInput::BlockFailure { slot: s } && s == slot
}

/// A block that is being fetched stays so, whatever happens to others, until the peer that was
/// asked for it answers or fails. Then another peer is asked for the same block, so that fewer
/// are left, or the outcome is handed out and the slot is free: there is one outcome, and it
/// comes in the end.
pub proof fn request_lasts_until_answered(
    before: SwarmModel,
    store: StoreModel,
    input: LoopInput,
    action: LoopAction,
    after: SwarmModel,
    slot: usize,
)
    requires
        follows(before, store, input, action, after),
        before.blocks.dom().contains(slot),
    ensures
        !is_answer_for(input, slot) ==> after.blocks.dom().contains(slot) && after.blocks[slot]
            == before.blocks[slot],
        is_answer_for(input, slot) ==> if after.blocks.dom().contains(slot) {
            &&& action is Ask
            &&& after.blocks[slot].cid == before.blocks[slot].cid
            &&& after.blocks[slot].remaining.len() < before.blocks[slot].remaining.len()
        } else {
            action is BlockDone
        },
{
}

/// A block that is handed out is the one that was wanted.
pub proof fn delivered_block_was_wanted(
    before: SwarmModel,
    store: StoreModel,
    slot: usize,
    response: BlockResponse,
    action: LoopAction,
    after: SwarmModel,
)
    requires
        follows(before, store, LoopInput::BlockAnswer { slot, response }, action, after),
    ensures
        action matches LoopAction::BlockDone { data: Some(data) } ==> {
            &&& before.blocks.dom().contains(slot)
            &&& block_cid(data@) == before.blocks[slot].cid
        },
{
}

/// A query goes on until it ends, whatever happens to others, and loses nothing that it has
/// found. When it ends, all of that is handed out, once.
pub proof fn query_loses_nothing(
    before: SwarmModel,
    store: StoreModel,
    input: LoopInput,
    action: LoopAction,
    after: SwarmModel,
    slot: usize,
)
    requires
        follows(before, store, input, action, after),
        before.resolves.dom().contains(slot),
    ensures
        if input == (LoopInput::QueryEnded { slot }) {
            &&& !after.resolves.dom().contains(slot)
            &&& action matches LoopAction::Resolved { candidates } && record_views(candidates@)
                == before.resolves[slot]
        } else {
            &&& after.resolves.dom().contains(slot)
            &&& before.resolves[slot].is_prefix_of(after.resolves[slot])
        },
{
}

/// A wanted block is asked for at once: of a connected peer, the preferred one if it is
/// connected, while the other connected peers wait; and without any peer there is no block.
/// Nothing else that is under way changes.
pub proof fn wanted_block_is_asked_for(
    before: SwarmModel,
    store: StoreModel,
    cid: Cid,
    prefer: Option<Peer>,
    connected: Vec<Peer>,
    action: LoopAction,
    after: SwarmModel,
)
    requires
        follows(before, store, LoopInput::GetBlock { cid, prefer, connected }, action, after),
    ensures
        after.resolves == before.resolves,
        connected@.len() == 0 ==> after == before && (action matches LoopAction::BlockDone { data }
            && data is None),
        connected@.len() > 0 ==> (action matches LoopAction::Ask { slot, peer, request } && {
            &&& request.cid_bytes@ == cid@
            &&& !before.blocks.dom().contains(slot)
            &&& after.blocks == before.blocks.insert(slot, after.blocks[slot])
            &&& after.blocks[slot].cid == cid@
            &&& forall|p: Seq<u8>| #[trigger]
                peer_views(connected@).contains(p) <==> p == peer@
                    || after.blocks[slot].remaining.contains(p)
            &&& prefer matches Some(p) ==> (peer_views(connected@).contains(p@) ==> peer@ == p@)
        }),
{
    let views = peer_views(connected@);
    let wish = match prefer {
        Some(p) => Some(p@),
        None => None,
    };
    let order = ask_order(wish, views);
    ask_order_covers_connected(wish, views);
    if connected@.len() > 0 {
        assert(views.contains(views[0]));
        assert(order.contains(views[0]));
        let rest = order.skip(1);
        assert forall|p: Seq<u8>| #[trigger] views.contains(p) <==> p == order[0] || rest.contains(
            p,
        ) by {
            assert(order.contains(p) <==> views.contains(p));
            if order.contains(p) {
                let i = choose|i: int| 0 <= i < order.len() && order[i] == p;
                if i > 0 {
                    assert(rest[i - 1] == p);
                }
            }
            if rest.contains(p) {
                let i = choose|i: int| 0 <= i < rest.len() && rest[i] == p;
                assert(order[i + 1] == p);
            }
        }
    } else if order.len() > 0 {
        assert(order.contains(order[0]));
    }
}

/// What the node wants of the network is asked for under the names of the account: its topic is
/// the prefix and the key in hexadecimal, and so is the key of its head record.
pub proof fn account_is_asked_for_by_its_names(
    before: SwarmModel,
    store: StoreModel,
    input: LoopInput,
    action: LoopAction,
    after: SwarmModel,
)
    requires
        follows(before, store, input, action, after),
    ensures
        input matches LoopInput::Subscribe { pubkey_hex } ==> after == before && (action matches
            LoopAction::Join { topic } && topic@ == "deilephila/feed/"@ + pubkey_hex@),
        input matches LoopInput::Unsubscribe { pubkey_hex } ==> after == before && (action matches
            LoopAction::Leave { topic } && topic@ == "deilephila/feed/"@ + pubkey_hex@),
        input matches LoopInput::ResolveIpns { pubkey } ==> after.blocks == before.blocks && (
        action matches LoopAction::Query { slot, key } && key@ == encode_utf8(
            "/deilephila/head/"@ + hex_text(pubkey@),
        ) && !before.resolves.dom().contains(slot) && after.resolves == before.resolves.insert(
            slot,
            Seq::empty(),
        )),
        input matches LoopInput::PublishHead { record, now_ms } ==> after == before && (
        action matches LoopAction::Publish { publication } && publication.topic@
            == "deilephila/feed/"@ + hex_text(record@.payload.name) && publication.key@
            == encode_utf8("/deilephila/head/"@ + hex_text(record@.payload.name))
            && publication.data@ == record_block(record@)),
{
}

/// A peer that wants a block gets it if the store has the event with that CID, and is told that
/// it is not there otherwise.
pub proof fn held_block_is_given(
    before: SwarmModel,
    store: StoreModel,
    request: WantBlock,
    i: int,
    action: LoopAction,
    after: SwarmModel,
)
    requires
        follows(before, store, LoopInput::WantBlock { request }, action, after),
    ensures
        after == before,
        0 <= i < store.events.len() && cid_read(request.cid_bytes@) == Some(
            event_cid(store.events[i]),
        ) ==> (action matches LoopAction::Respond { response: BlockResponse::Found { data } }
            && exists|j: int|
            0 <= j < store.events.len() && event_cid(#[trigger] store.events[j]) == event_cid(
                store.events[i],
            ) && data@ == envelope_block(store.events[j])),
        (forall|j: int|
            0 <= j < store.events.len() ==> cid_read(request.cid_bytes@) != Some(
                event_cid(#[trigger] store.events[j]),
            )) ==> (action matches LoopAction::Respond { response } && response is NotFound),
{
    answer_is_the_block_that_is_held(store, request.cid_bytes@);
}

/// An answer with the wanted block ends the search with that block; any other answer, and a
/// failure, leads to the next peer that waits, or to the end of the search without one.
pub proof fn answer_ends_or_goes_on(
    before: SwarmModel,
    store: StoreModel,
    slot: usize,
    input: LoopInput,
    action: LoopAction,
    after: SwarmModel,
)
    requires
        follows(before, store, input, action, after),
        before.blocks.dom().contains(slot),
        is_answer_for(input, slot),
    ensures
        after.resolves == before.resolves,
        ({
            let p = before.blocks[slot];
            let found = input matches LoopInput::BlockAnswer {
                response: BlockResponse::Found { data },
                ..
            } && seq![1u8, 0x71u8, 0x12u8, 0x20u8] + sha2_256(data@) == p.cid;
            &&& found ==> after.blocks == before.blocks.remove(slot) && (input matches
                LoopInput::BlockAnswer { response: BlockResponse::Found { data }, .. } && (
            action matches LoopAction::BlockDone { data: Some(d) } && d@ == data@))
            &&& !found && p.remaining.len() == 0 ==> after.blocks == before.blocks.remove(slot) && (
            action matches LoopAction::BlockDone { data } && data is None)
            &&& !found && p.remaining.len() > 0 ==> (action matches LoopAction::Ask {
                slot: s,
                peer,
                request,
            } && s == slot && peer@ == p.remaining[0] && request.cid_bytes@ == p.cid && after.blocks
                == before.blocks.insert(
                slot,
                PendingModel { cid: p.cid, remaining: p.remaining.skip(1) },
            ))
        }),
{
    match input {
        LoopInput::BlockAnswer { response, .. } => {
            search_ends_with_the_wanted_block(before.blocks[slot], response_data(response));
        },
        _ => {
            search_ends_with_the_wanted_block(before.blocks[slot], None);
        },
    }
}

} // verus!
