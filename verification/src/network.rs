//! What the node decides about messages from and to other nodes.

use crate::head::{
    feed_topic, feed_topic_str, is_best, is_candidate, record_block, record_of_bytes, record_to_bytes,
    record_signed, record_views, select_best, IpnsRecord, RecordModel,
};
use crate::network::ipns::{
    check_inbound, expires_from_validity, head_key, head_record_key, inbound_fault, inbound_record,
    ttl, AcceptedRecord, DhtRecord,
};
use crate::util::{bytes_to_hex, decimal, hex_text, u64_to_text};
use vstd::prelude::*;
use vstd::string::*;
use vstd::utf8::encode_utf8;

pub mod event_loop;
pub mod ipns;
pub mod pending;
pub mod protocol;
pub mod swarm;

verus! {

/// The complaint about a record whose sequence is not above the one that is kept.
pub open spec fn stale_sequence_message(sequence: u64, known: u64) -> Seq<char> {
    "stale sequence "@ + decimal(sequence as nat) + " (known "@ + decimal(known as nat) + ")"@
}

/// Checks a record that another node wants to put into the hash table, where only the
/// sequence of the record that is kept is known: it must be above that. A record that is
/// issued again under its old sequence is not accepted here; see
/// [`ipns::validate_inbound_head_record`] for that.
pub fn validate_inbound_head_record(
    record: &DhtRecord,
    existing_seq: Option<u64>,
    now_ms: i64,
) -> (res: Result<AcceptedRecord, String>)
    ensures
        ({
            let fault = inbound_fault(record.key@, record.value@);
            let r = inbound_record(record.value@);
            match res {
                Ok(a) => {
                    &&& fault is None
                    &&& existing_seq matches Some(known) ==> known < r.payload.sequence
                    &&& a.key@ == record.key@
                    &&& a.value@ == record.value@
                    &&& a.ttl_ms == ttl(r.payload.validity, now_ms)
                },
                Err(text) => match fault {
                    Some(f) => text@ == f,
                    None => existing_seq matches Some(known) && r.payload.sequence <= known
                        && text@ == stale_sequence_message(r.payload.sequence, known),
                },
            }
        }),
{
    let decoded = match check_inbound(record) {
        Ok(r) => r,
        Err(text) => return Err(text),
    };
    if let Some(known) = existing_seq {
        if decoded.payload.sequence <= known {
            let t = "stale sequence ".to_owned();
            let t = t.concat(u64_to_text(decoded.payload.sequence).as_str());
            let t = t.concat(" (known ");
            let t = t.concat(u64_to_text(known).as_str());
            let t = t.concat(")");
            return Err(t);
        }
    }
    Ok(
        AcceptedRecord {
            key: record.key.clone(),
            value: record.value.clone(),
            ttl_ms: expires_from_validity(decoded.payload.validity, now_ms),
        },
    )
}

/// Chooses among the records that the hash table gave for an account.
pub fn resolve_ipns(pubkey: &[u8; 32], candidates: &[IpnsRecord]) -> (res: Option<IpnsRecord>)
    ensures
        match res {
            Some(r) => exists|i: int| #[trigger]
                is_best(record_views(candidates@), pubkey@, i) && r@ == record_views(candidates@)[i],
            None => forall|i: int|
                0 <= i < candidates@.len() ==> !is_candidate(
                    #[trigger] record_views(candidates@)[i],
                    pubkey@,
                ),
        },
{
    match select_best(pubkey, candidates) {
        Some(r) => Some(r.clone()),
        None => None,
    }
}

/// How a head record goes out: announced on a topic, and put into the hash table.
#[derive(Debug, Clone)]
pub struct Publication {
    pub topic: String,
    pub data: Vec<u8>,
    pub key: Vec<u8>,
    /// Milliseconds until the record runs out.
    pub ttl_ms: u64,
}

/// Whether a record goes out so: on its account's topic and under its account's key, until it
/// runs out.
pub open spec fn publishes(p: Publication, r: RecordModel, now_ms: i64) -> bool {
    &&& p.topic@ == feed_topic(hex_text(r.payload.name))
    &&& p.data@ == record_block(r)
    &&& p.key@ == head_key(r.payload.name)
    &&& p.ttl_ms == ttl(r.payload.validity, now_ms)
}

/// How a head record goes out: on its account's topic and under its account's key.
pub fn publish_head_record(record: &IpnsRecord, now_ms: i64) -> (res: Publication)
    ensures
        publishes(res, record@, now_ms),
        record_of_bytes(res.data@) matches Ok(r) && r == record@,
{
    let hex = bytes_to_hex(record.payload.name.as_slice());
    Publication {
        topic: feed_topic_str(hex.as_str()),
        data: record_to_bytes(record),
        key: head_record_key(&record.payload.name),
        ttl_ms: expires_from_validity(record.payload.validity, now_ms),
    }
}

/// What one node publishes, every other node takes in: the announcement belongs on its topic,
/// and the hash table accepts the record, unless it keeps one that is at least as new.
pub proof fn published_record_is_accepted(r: RecordModel)
    requires
        record_signed(r),
        record_of_bytes(record_block(r)) == Ok::<RecordModel, Seq<char>>(r),
    ensures
        inbound_fault(head_key(r.payload.name), record_block(r)) is None,
        inbound_record(record_block(r)) == r,
{
}

/// A record goes out whole, on the topic and under the key of the account that it names, until
/// its validity.
pub proof fn publication_is_whole(p: Publication, r: RecordModel, now_ms: i64)
    requires
        publishes(p, r, now_ms),
    ensures
        p.topic@ == "deilephila/feed/"@ + hex_text(r.payload.name),
        p.key@ == encode_utf8("/deilephila/head/"@ + hex_text(r.payload.name)),
        p.data@ == record_block(r),
        r.payload.validity <= now_ms ==> p.ttl_ms == 0,
        r.payload.validity > now_ms && r.payload.validity - now_ms <= i64::MAX ==> now_ms + p.ttl_ms
            == r.payload.validity,
{
}

} // verus!
