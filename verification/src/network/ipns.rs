//! Head records in the distributed hash table and on announcement topics.

use crate::cid::{bytes_eq, copy_bytes};
use crate::dag_cbor::dag_cbor_bytes;
use crate::head::{
    feed_topic, feed_topic_str, head_before, is_head_before, record_from_bytes, record_of_bytes,
    record_payload_tree, record_signed, verify_ipns_record, IpnsRecord, RecordModel,
};
use crate::identity::{ed25519_key_valid, ed25519_verifies};
use crate::store::text_eq;
use crate::util::{
    bytes_to_hex, decimal, hex_text, hex_text_injective, i64_to_text, signed_decimal, u64_to_text,
};
use vstd::prelude::*;
use vstd::string::*;
use vstd::utf8::{encode_utf8, encode_utf8_decode_utf8};

verus! {

/// A record of the hash table.
#[derive(Debug, Clone)]
pub struct DhtRecord {
    pub key: Vec<u8>,
    pub value: Vec<u8>,
}

/// A record that may be kept in the hash table, and for how long.
#[derive(Debug, Clone)]
pub struct AcceptedRecord {
    pub key: Vec<u8>,
    pub value: Vec<u8>,
    /// Milliseconds until the record runs out.
    pub ttl_ms: u64,
}

/// The key of an account's head record, as text.
pub open spec fn head_key_text(pubkey: Seq<u8>) -> Seq<char> {
    "/deilephila/head/"@ + hex_text(pubkey)
}

/// The key of an account's head record.
pub open spec fn head_key(pubkey: Seq<u8>) -> Seq<u8> {
    encode_utf8(head_key_text(pubkey))
}

/// How long a record lives that runs out at `validity`; 0 if it has run out.
pub open spec fn ttl(validity: i64, now: i64) -> u64 {
    if validity <= now {
        0
    } else if validity - now > i64::MAX {
        i64::MAX as u64
    } else {
        (validity - now) as u64
    }
}

/// The key under which an account's head record stands in the hash table.
pub fn head_record_key(pubkey: &[u8; 32]) -> (res: Vec<u8>)
    ensures
        res@ == head_key(pubkey@),
{
    let text = "/deilephila/head/".to_owned();
    let text = text.concat(bytes_to_hex(pubkey.as_slice()).as_str());
    copy_bytes(text.as_str().as_bytes())
}

/// How long a record lives, in milliseconds from now. A record past its time lives no longer.
pub fn expires_from_validity(validity_ms: i64, now_ms: i64) -> (res: u64)
    ensures
        res == ttl(validity_ms, now_ms),
{
    let left: i128 = validity_ms as i128 - now_ms as i128;
    if left <= 0 {
        0
    } else if left > i64::MAX as i128 {
        i64::MAX as u64
    } else {
        left as u64
    }
}

/// Whether a record belongs on the topic on which it came: each topic carries the records of
/// one account.
pub fn record_matches_topic(record: &IpnsRecord, topic: &str) -> (res: bool)
    ensures
        res == (feed_topic(hex_text(record@.payload.name)) == topic@),
{
    let hex = bytes_to_hex(record.payload.name.as_slice());
    text_eq(feed_topic_str(hex.as_str()).as_str(), topic)
}

/// What is wrong with a record apart from its age: it does not decode, its account did not
/// sign it, or it stands under another key.
pub open spec fn inbound_fault(key: Seq<u8>, value: Seq<u8>) -> Option<Seq<char>> {
    match record_of_bytes(value) {
        Err(message) => Some(
            "undecodable: failed to decode IPNS head record: "@ + message,
        ),
        Ok(r) => if !record_signed(r) {
            Some("invalid signature"@)
        } else if key != head_key(r.payload.name) {
            Some("key does not match record name"@)
        } else {
            None
        },
    }
}

/// The record in a value that decodes.
pub open spec fn inbound_record(value: Seq<u8>) -> RecordModel
    recommends
        record_of_bytes(value) is Ok,
{
    record_of_bytes(value)->Ok_0
}

/// The complaint about a record that is not newer than the one that is kept.
pub open spec fn stale_message(r: RecordModel, known_seq: u64, known_validity: i64) -> Seq<char> {
    "stale record (sequence "@ + decimal(r.payload.sequence as nat) + ", validity "@
        + signed_decimal(r.payload.validity as int) + ") (known: sequence "@ + decimal(
        known_seq as nat,
    ) + ", validity "@ + signed_decimal(known_validity as int) + ")"@
}

/// Decodes an inbound record and checks it in all but its age.
pub(crate) fn check_inbound(record: &DhtRecord) -> (res: Result<IpnsRecord, String>)
    ensures
        match res {
            Ok(r) => inbound_fault(record.key@, record.value@) is None && record_of_bytes(
                record.value@,
            ) == Ok::<RecordModel, Seq<char>>(r@),
            Err(text) => inbound_fault(record.key@, record.value@) == Some(text@),
        },
{
    let decoded = match record_from_bytes(record.value.as_slice()) {
        Ok(r) => r,
        Err(e) => {
            let text = "undecodable: ".to_owned();
            let text = text.concat(e.to_string().as_str());
            proof {
                reveal_strlit("undecodable: ");
                reveal_strlit("failed to decode IPNS head record: ");
                reveal_strlit("undecodable: failed to decode IPNS head record: ");
                assert("undecodable: "@ + "failed to decode IPNS head record: "@
                    =~= "undecodable: failed to decode IPNS head record: "@);
                assert(text@ =~= "undecodable: failed to decode IPNS head record: "@
                    + e->Decode_0@);
            }
            return Err(text);
        },
    };
    if verify_ipns_record(&decoded).is_err() {
        return Err("invalid signature".to_owned());
    }
    let key = head_record_key(&decoded.payload.name);
    if !bytes_eq(record.key.as_slice(), key.as_slice()) {
        return Err("key does not match record name".to_owned());
    }
    Ok(decoded)
}

/// Checks a record that another node wants to put into the hash table. It is accepted if it
/// decodes, its account signed it, it stands under the account's key, and it is newer than
/// the record that is kept, by sequence and then by validity. How long it lives is worked out
/// from its own validity.
pub fn validate_inbound_head_record(
    record: &DhtRecord,
    existing: Option<(u64, i64)>,
    now_ms: i64,
) -> (res: Result<AcceptedRecord, String>)
    ensures
        ({
            let fault = inbound_fault(record.key@, record.value@);
            let r = inbound_record(record.value@);
            match res {
                Ok(a) => {
                    &&& fault is None
                    &&& existing matches Some((s, v)) ==> head_before(
                        s,
                        v,
                        r.payload.sequence,
                        r.payload.validity,
                    )
                    &&& a.key@ == record.key@
                    &&& a.value@ == record.value@
                    &&& a.ttl_ms == ttl(r.payload.validity, now_ms)
                },
                Err(text) => match fault {
                    Some(f) => text@ == f,
                    None => existing matches Some((s, v)) && !head_before(
                        s,
                        v,
                        r.payload.sequence,
                        r.payload.validity,
                    ) && text@ == stale_message(r, s, v),
                },
            }
        }),
{
    let decoded = match check_inbound(record) {
        Ok(r) => r,
        Err(text) => return Err(text),
    };
    if let Some((known_seq, known_validity)) = existing {
        if !is_head_before(
            known_seq,
            known_validity,
            decoded.payload.sequence,
            decoded.payload.validity,
        ) {
            let t = "stale record (sequence ".to_owned();
            let t = t.concat(u64_to_text(decoded.payload.sequence).as_str());
            let t = t.concat(", validity ");
            let t = t.concat(i64_to_text(decoded.payload.validity).as_str());
            let t = t.concat(") (known: sequence ");
            let t = t.concat(u64_to_text(known_seq).as_str());
            let t = t.concat(", validity ");
            let t = t.concat(i64_to_text(known_validity).as_str());
            let t = t.concat(")");
            return Err(t);
        }
    }
    Ok(
        AcceptedRecord {
            key: record.key.clone(),
            value: record.value.clone(),
            ttl_ms: expires_from_validity(decoded.payload.validity, now_ms),
        },
    )
}

/// No two accounts share a key in the hash table.
pub proof fn head_key_injective(a: Seq<u8>, b: Seq<u8>)
    requires
        head_key(a) == head_key(b),
    ensures
        a == b,
{
    encode_utf8_decode_utf8(head_key_text(a));
    encode_utf8_decode_utf8(head_key_text(b));
    let n = "/deilephila/head/"@.len() as int;
    assert(head_key_text(a).skip(n) =~= hex_text(a));
    assert(head_key_text(b).skip(n) =~= hex_text(b));
    hex_text_injective(a, b);
}

/// A record can stand only under the key of the account that signed it: nobody else can put
/// anything there.
pub proof fn accepted_record_is_its_owners(pubkey: Seq<u8>, value: Seq<u8>)
    requires
        inbound_fault(head_key(pubkey), value) is None,
    ensures
        inbound_record(value).payload.name == pubkey,
        record_signed(inbound_record(value)),
{
    head_key_injective(pubkey, inbound_record(value).payload.name);
}

/// A record lives from now until its validity, and no longer: nothing is left of one that has
/// run out.
pub proof fn record_lives_until_its_validity(validity: i64, now: i64)
    ensures
        validity <= now ==> ttl(validity, now) == 0,
        validity > now && validity - now <= i64::MAX ==> now + ttl(validity, now) == validity,
        validity > now ==> ttl(validity, now) > 0,
{
}

/// The key of an account's record is the hexadecimal key of the account behind a fixed prefix.
pub proof fn head_key_is_prefix_and_account(pubkey: Seq<u8>)
    ensures
        head_key(pubkey) == encode_utf8("/deilephila/head/"@ + hex_text(pubkey)),
{
}

/// A value may stand under a key if and only if it holds a record that carries the signature of
/// the account that it names, and the key is that account's.
pub proof fn only_signed_records_stand_under_their_key(key: Seq<u8>, value: Seq<u8>)
    ensures
        inbound_fault(key, value) is None <==> (record_of_bytes(value) matches Ok(r) && {
            &&& ed25519_key_valid(r.payload.name)
            &&& ed25519_verifies(
                r.payload.name,
                dag_cbor_bytes(record_payload_tree(r.payload)),
                r.signature,
            )
            &&& key == encode_utf8("/deilephila/head/"@ + hex_text(r.payload.name))
        }),
        inbound_fault(key, value) is None ==> record_of_bytes(value) == Ok::<
            RecordModel,
            Seq<char>,
        >(inbound_record(value)),
{
}

} // verus!
