//! Signed head records: the mutable pointer to the newest event of an account.

use crate::cid::{bytes_eq, is_cid, Cid};
use crate::dag_cbor::{
    cid_option, dag_cbor_bytes, dag_cbor_parse, decode, encodable, encodable_deeper, encode,
    encodes, ipld_bytes, ipld_empty_map, ipld_field, ipld_int, ipld_text, ipld_tree,
    ipld_with_field, optional_link_tree, read_bytes, read_i64, read_link, read_optional_link,
    read_text, read_u64, tree_bytes, tree_field, tree_i64, tree_link, tree_optional_link,
    tree_text, tree_u64, write_link, write_optional_link, Tree, MAX_DEPTH,
};
use crate::event::{as_map, clone_optional_cid, VerifyError};
use crate::identity::{
    ed25519_key_valid, ed25519_public, ed25519_signature, ed25519_verifies, verify_signature,
    Identity,
};
use ipld_core::ipld::Ipld;
use vstd::prelude::*;
use vstd::string::*;

verus! {

/// How long a record lives unless it is issued again: 48 hours.
pub const RECORD_LIFETIME_MS: i64 = 48 * 60 * 60 * 1000;

/// What a head record says, and what its signature covers.
#[derive(Debug)]
pub struct IpnsRecordPayload {
    /// The public key of the account, which also checks the signature.
    pub name: [u8; 32],
    /// The CID of the newest event.
    pub value: Cid,
    /// The position of the newest event.
    pub sequence: u64,
    /// When the record runs out, in milliseconds since the Unix epoch.
    pub validity: i64,
    /// The CID of the newest profile event.
    pub profile_cid: Option<Cid>,
    /// The display name; empty if there is none.
    pub display_name: String,
}

/// A signed head record.
#[derive(Debug)]
pub struct IpnsRecord {
    pub payload: IpnsRecordPayload,
    pub signature: [u8; 64],
}

/// Model of [`IpnsRecordPayload`].
pub struct RecordPayloadModel {
    pub name: Seq<u8>,
    pub value: Seq<u8>,
    pub sequence: u64,
    pub validity: i64,
    pub profile_cid: Option<Seq<u8>>,
    pub display_name: Seq<char>,
}

/// Model of [`IpnsRecord`].
pub struct RecordModel {
    pub payload: RecordPayloadModel,
    pub signature: Seq<u8>,
}

impl View for IpnsRecordPayload {
    type V = RecordPayloadModel;

    open spec fn view(&self) -> RecordPayloadModel {
        RecordPayloadModel {
            name: self.name@,
            value: self.value@,
            sequence: self.sequence,
            validity: self.validity,
            profile_cid: cid_option(self.profile_cid),
            display_name: self.display_name@,
        }
    }
}

impl View for IpnsRecord {
    type V = RecordModel;

    open spec fn view(&self) -> RecordModel {
        RecordModel { payload: self.payload@, signature: self.signature@ }
    }
}

impl Clone for IpnsRecordPayload {
    fn clone(&self) -> (res: Self)
        ensures
            res@ == self@,
    {
        IpnsRecordPayload {
            name: self.name,
            value: self.value.clone(),
            sequence: self.sequence,
            validity: self.validity,
            profile_cid: clone_optional_cid(&self.profile_cid),
            display_name: self.display_name.clone(),
        }
    }
}

impl Clone for IpnsRecord {
    fn clone(&self) -> (res: Self)
        ensures
            res@ == self@,
    {
        IpnsRecord { payload: self.payload.clone(), signature: self.signature }
    }
}

// ---------------------------------------------------------------------------
// Encoding
// ---------------------------------------------------------------------------

/// Whether a record's payload holds real CIDs and a key.
pub open spec fn valid_record_payload(p: RecordPayloadModel) -> bool {
    &&& p.name.len() == 32
    &&& is_cid(p.value)
    &&& p.profile_cid matches Some(c) ==> is_cid(c)
}

/// Whether a record holds real CIDs and a key.
pub open spec fn valid_record(r: RecordModel) -> bool {
    valid_record_payload(r.payload) && r.signature.len() == 64
}

/// A record's payload as an IPLD value.
pub open spec fn record_payload_tree(p: RecordPayloadModel) -> Tree {
    Tree::Fields(
        Map::<Seq<char>, Tree>::empty().insert("name"@, Tree::Bytes(p.name)).insert(
            "value"@,
            Tree::Link(p.value),
        ).insert("sequence"@, Tree::Int(p.sequence as int)).insert(
            "validity"@,
            Tree::Int(p.validity as int),
        ).insert("profile_cid"@, optional_link_tree(p.profile_cid)).insert(
            "display_name"@,
            Tree::Text(p.display_name),
        ),
    )
}

/// A record as an IPLD value.
pub open spec fn record_tree(r: RecordModel) -> Tree {
    Tree::Fields(
        Map::<Seq<char>, Tree>::empty().insert("payload"@, record_payload_tree(r.payload)).insert(
            "signature"@,
            Tree::Bytes(r.signature),
        ),
    )
}

/// The bytes that a record's signature covers.
pub open spec fn record_payload_block(p: RecordPayloadModel) -> Seq<u8> {
    dag_cbor_bytes(record_payload_tree(p))
}

/// The bytes of a record.
pub open spec fn record_block(r: RecordModel) -> Seq<u8> {
    dag_cbor_bytes(record_tree(r))
}

/// The payload that an IPLD value stands for. A missing `profile_cid` reads as null; entries
/// that a payload does not have are ignored.
pub open spec fn record_payload_of_tree(tree: Tree) -> Option<RecordPayloadModel> {
    match (
        tree_bytes(tree_field(tree, "name"@), 32),
        tree_link(tree_field(tree, "value"@)),
        tree_u64(tree_field(tree, "sequence"@)),
        tree_i64(tree_field(tree, "validity"@)),
        tree_optional_link(tree_field(tree, "profile_cid"@)),
        tree_text(tree_field(tree, "display_name"@)),
    ) {
        (
            Some(name),
            Some(value),
            Some(sequence),
            Some(validity),
            Some(profile_cid),
            Some(display_name),
        ) => Some(
            RecordPayloadModel { name, value, sequence, validity, profile_cid, display_name },
        ),
        _ => None,
    }
}

/// The record that an IPLD value stands for.
pub open spec fn record_of_tree(tree: Tree) -> Option<RecordModel> {
    let payload = match tree_field(tree, "payload"@) {
        Some(t) => record_payload_of_tree(t),
        None => None,
    };
    match (payload, tree_bytes(tree_field(tree, "signature"@), 64)) {
        (Some(payload), Some(signature)) => Some(RecordModel { payload, signature }),
        _ => None,
    }
}

/// The record in a byte string, or why there is none: the codec's message, or that the value
/// is no record. The bytes are DAG-CBOR throughout, as those of an event. Fields that a record
/// does not have are passed over.
pub open spec fn record_of_bytes(bytes: Seq<u8>) -> Result<RecordModel, Seq<char>> {
    match dag_cbor_parse(bytes) {
        Ok(tree) => match record_of_tree(tree) {
            Some(r) => Ok(r),
            None => Err("not a head record"@),
        },
        Err(message) => Err(message),
    }
}

proof fn record_keys_differ()
    ensures
        "name"@ != "value"@,
        "name"@ != "sequence"@,
        "name"@ != "validity"@,
        "name"@ != "profile_cid"@,
        "name"@ != "display_name"@,
        "value"@ != "sequence"@,
        "value"@ != "validity"@,
        "value"@ != "profile_cid"@,
        "value"@ != "display_name"@,
        "sequence"@ != "validity"@,
        "sequence"@ != "profile_cid"@,
        "sequence"@ != "display_name"@,
        "validity"@ != "profile_cid"@,
        "validity"@ != "display_name"@,
        "profile_cid"@ != "display_name"@,
        "payload"@ != "signature"@,
{
    reveal_strlit("name");
    reveal_strlit("value");
    reveal_strlit("sequence");
    reveal_strlit("validity");
    reveal_strlit("profile_cid");
    reveal_strlit("display_name");
    reveal_strlit("payload");
    reveal_strlit("signature");
    assert("name"@.len() == 4 && "value"@.len() == 5);
    assert("sequence"@.len() == 8 && "validity"@.len() == 8);
    assert("profile_cid"@.len() == 11 && "display_name"@.len() == 12);
    assert("payload"@.len() == 7 && "signature"@.len() == 9);
    assert("sequence"@[0] == 's' && "validity"@[0] == 'v');
}

/// Writing a record's payload as a value and reading it back gives the payload.
pub proof fn record_payload_tree_roundtrip(p: RecordPayloadModel)
    requires
        valid_record_payload(p),
    ensures
        record_payload_of_tree(record_payload_tree(p)) == Some(p),
        encodable(record_payload_tree(p), 1),
{
    record_keys_differ();
    assert(tree_optional_link(Some(optional_link_tree(p.profile_cid))) == Some(p.profile_cid));
    assert(encodable(optional_link_tree(p.profile_cid), 0));
    assert(encodable(Tree::Bytes(p.name), 0));
    assert(encodable(Tree::Link(p.value), 0));
    assert(encodable(Tree::Int(p.sequence as int), 0));
    assert(encodable(Tree::Int(p.validity as int), 0));
    assert(encodable(Tree::Text(p.display_name), 0));
    assert(record_payload_of_tree(record_payload_tree(p)) == Some(p));
}

/// Writing a record as a value and reading it back gives the record.
pub proof fn record_tree_roundtrip(r: RecordModel)
    requires
        valid_record(r),
    ensures
        record_of_tree(record_tree(r)) == Some(r),
        encodable(record_tree(r), 2),
{
    record_keys_differ();
    record_payload_tree_roundtrip(r.payload);
    assert(encodable(Tree::Bytes(r.signature), 1));
    assert(record_of_tree(record_tree(r)) == Some(r));
}

fn record_payload_to_ipld(p: &IpnsRecordPayload) -> (res: Ipld)
    ensures
        ipld_tree(res) == record_payload_tree(p@),
        valid_record_payload(p@),
{
    let m = ipld_with_field(ipld_empty_map(), "name", ipld_bytes(p.name.as_slice()));
    let m = ipld_with_field(m, "value", write_link(&p.value));
    let m = ipld_with_field(m, "sequence", ipld_int(p.sequence as i128));
    let m = ipld_with_field(m, "validity", ipld_int(p.validity as i128));
    let m = ipld_with_field(m, "profile_cid", write_optional_link(&p.profile_cid));
    ipld_with_field(m, "display_name", ipld_text(p.display_name.as_str()))
}

fn record_to_ipld(r: &IpnsRecord) -> (res: Ipld)
    ensures
        ipld_tree(res) == record_tree(r@),
        valid_record(r@),
{
    let m = ipld_with_field(ipld_empty_map(), "payload", record_payload_to_ipld(&r.payload));
    ipld_with_field(m, "signature", ipld_bytes(r.signature.as_slice()))
}

fn record_payload_from_ipld(value: Ipld) -> (res: Option<IpnsRecordPayload>)
    ensures
        match res {
            Some(p) => record_payload_of_tree(ipld_tree(value)) == Some(p@),
            None => record_payload_of_tree(ipld_tree(value)) is None,
        },
{
    let map = match as_map(value) {
        Some(m) => m,
        None => return None,
    };
    match (
        read_bytes::<32>(&map, "name"),
        read_link(&map, "value"),
        read_u64(&map, "sequence"),
        read_i64(&map, "validity"),
        read_optional_link(&map, "profile_cid"),
        read_text(&map, "display_name"),
    ) {
        (
            Some(name),
            Some(value),
            Some(sequence),
            Some(validity),
            Some(profile_cid),
            Some(display_name),
        ) => Some(
            IpnsRecordPayload { name, value, sequence, validity, profile_cid, display_name },
        ),
        _ => None,
    }
}

fn record_from_ipld(value: Ipld) -> (res: Option<IpnsRecord>)
    ensures
        match res {
            Some(r) => record_of_tree(ipld_tree(value)) == Some(r@),
            None => record_of_tree(ipld_tree(value)) is None,
        },
{
    let map = match as_map(value) {
        Some(m) => m,
        None => return None,
    };
    let payload = match ipld_field(&map, "payload") {
        Some(p) => record_payload_from_ipld(p),
        None => None,
    };
    match (payload, read_bytes::<64>(&map, "signature")) {
        (Some(payload), Some(signature)) => Some(IpnsRecord { payload, signature }),
        _ => None,
    }
}

/// The bytes that a record's signature covers.
pub fn record_payload_to_dag_cbor(payload: &IpnsRecordPayload) -> (res: Vec<u8>)
    ensures
        res@ == record_payload_block(payload@),
        encodes(res@, record_payload_tree(payload@)),
        record_payload_of_tree(record_payload_tree(payload@)) == Some(payload@),
{
    let value = record_payload_to_ipld(payload);
    proof {
        record_payload_tree_roundtrip(payload@);
        encodable_deeper(record_payload_tree(payload@), 1, MAX_DEPTH as nat);
    }
    encode(&value)
}

/// The bytes of a record, which read back as the record.
pub fn record_to_bytes(record: &IpnsRecord) -> (res: Vec<u8>)
    ensures
        res@ == record_block(record@),
        record_of_bytes(res@) matches Ok(r) && r == record@,
{
    let value = record_to_ipld(record);
    proof {
        record_tree_roundtrip(record@);
        encodable_deeper(record_tree(record@), 2, MAX_DEPTH as nat);
    }
    encode(&value)
}

/// Why a byte string holds no record.
#[derive(Debug, PartialEq, Eq)]
pub enum HeadError {
    Decode(String),
}

impl HeadError {
    /// The message of the error.
    pub fn to_string(&self) -> (res: String)
        ensures
            res@ == "failed to decode IPNS head record: "@ + self->Decode_0@,
    {
        match self {
            HeadError::Decode(text) => {
                let s = "failed to decode IPNS head record: ".to_owned();
                s.concat(text.as_str())
            },
        }
    }
}

/// The record in a byte string.
pub fn record_from_bytes(data: &[u8]) -> (res: Result<IpnsRecord, HeadError>)
    ensures
        match res {
            Ok(r) => record_of_bytes(data@) matches Ok(m) && m == r@,
            Err(HeadError::Decode(text)) => record_of_bytes(data@) matches Err(m) && m == text@,
        },
{
    match decode(data) {
        Ok(value) => match record_from_ipld(value) {
            Some(r) => Ok(r),
            None => Err(HeadError::Decode("not a head record".to_owned())),
        },
        Err(text) => Err(HeadError::Decode(text)),
    }
}

// ---------------------------------------------------------------------------
// Signing and checking
// ---------------------------------------------------------------------------

/// Whether a record carries the signature of the account that it names.
pub open spec fn record_signed(r: RecordModel) -> bool {
    &&& ed25519_key_valid(r.payload.name)
    &&& ed25519_verifies(r.payload.name, record_payload_block(r.payload), r.signature)
}

/// The record that the key pair of `seed` signs.
pub open spec fn signed_record(
    seed: Seq<u8>,
    sequence: u64,
    value: Seq<u8>,
    validity: i64,
    profile_cid: Option<Seq<u8>>,
    display_name: Seq<char>,
) -> RecordModel {
    let payload = RecordPayloadModel {
        name: ed25519_public(seed),
        value,
        sequence,
        validity,
        profile_cid,
        display_name,
    };
    RecordModel { payload, signature: ed25519_signature(seed, record_payload_block(payload)) }
}

/// Signs a head record. When it runs out is for the caller to say.
pub fn create_ipns_record(
    identity: &Identity,
    sequence: u64,
    head_cid: Cid,
    validity: i64,
    profile_cid: Option<Cid>,
    display_name: String,
) -> (res: IpnsRecord)
    ensures
        res@ == signed_record(
            identity.seed(),
            sequence,
            head_cid@,
            validity,
            cid_option(profile_cid),
            display_name@,
        ),
        record_signed(res@),
{
    let payload = IpnsRecordPayload {
        name: identity.public_key_bytes(),
        value: head_cid,
        sequence,
        validity,
        profile_cid,
        display_name,
    };
    let block = record_payload_to_dag_cbor(&payload);
    let signature = identity.sign_bytes(block.as_slice());
    IpnsRecord { payload, signature }
}

/// Checks the signature of a record under the key that it names. Whether the record has run
/// out does not matter here: such a record still points at a head.
pub fn verify_ipns_record(record: &IpnsRecord) -> (res: Result<(), VerifyError>)
    ensures
        res is Ok <==> record_signed(record@),
        res matches Err(e) ==> e == VerifyError::InvalidSignature,
{
    let block = record_payload_to_dag_cbor(&record.payload);
    match verify_signature(&record.payload.name, block.as_slice(), &record.signature) {
        Ok(()) => Ok(()),
        Err(_) => Err(VerifyError::InvalidSignature),
    }
}

/// Whether a record has run out: from the instant `validity` on.
pub fn is_expired(record: &IpnsRecord, now_ms: i64) -> (res: bool)
    ensures
        res == (now_ms >= record@.payload.validity),
{
    now_ms >= record.payload.validity
}

// ---------------------------------------------------------------------------
// Choosing among records
// ---------------------------------------------------------------------------

/// Whether `(s1, v1)` comes before `(s2, v2)`: by sequence, and by validity where those agree.
pub open spec fn head_before(s1: u64, v1: i64, s2: u64, v2: i64) -> bool {
    s1 < s2 || (s1 == s2 && v1 < v2)
}

/// Whether record `a` is older than record `b`.
pub open spec fn older(a: RecordModel, b: RecordModel) -> bool {
    head_before(a.payload.sequence, a.payload.validity, b.payload.sequence, b.payload.validity)
}

/// Whether a record counts for an account: it names it and carries its signature.
pub open spec fn is_candidate(r: RecordModel, name: Seq<u8>) -> bool {
    r.payload.name == name && record_signed(r)
}

/// The views of a list of records.
pub open spec fn record_views(records: Seq<IpnsRecord>) -> Seq<RecordModel> {
    records.map_values(|r: IpnsRecord| r@)
}

/// Whether record `i` is the one to choose: a candidate such that no candidate is newer, and
/// every candidate before it is older.
pub open spec fn is_best(records: Seq<RecordModel>, name: Seq<u8>, i: int) -> bool {
    &&& 0 <= i < records.len()
    &&& is_candidate(records[i], name)
    &&& forall|j: int|
        0 <= j < records.len() && is_candidate(#[trigger] records[j], name) ==> !older(
            records[i],
            records[j],
        )
    &&& forall|j: int|
        0 <= j < i && is_candidate(#[trigger] records[j], name) ==> older(records[j], records[i])
}

/// `(s1, v1)` before `(s2, v2)`.
pub fn is_head_before(s1: u64, v1: i64, s2: u64, v2: i64) -> (res: bool)
    ensures
        res == head_before(s1, v1, s2, v2),
{
    s1 < s2 || (s1 == s2 && v1 < v2)
}

/// The newest record that an account has signed, by sequence and then by validity; the first
/// of those that agree in both. Records that ran out count; records of other accounts and
/// records with a bad signature do not.
pub fn select_best<'a>(expected_name: &[u8; 32], candidates: &'a [IpnsRecord]) -> (res: Option<
    &'a IpnsRecord,
>)
    ensures
        match res {
            Some(r) => exists|i: int|
                is_best(record_views(candidates@), expected_name@, i) && candidates@[i] == *r,
            None => forall|i: int|
                0 <= i < candidates@.len() ==> !is_candidate(
                    #[trigger] record_views(candidates@)[i],
                    expected_name@,
                ),
        },
{
    let ghost views = record_views(candidates@);
    let mut best: Option<usize> = None;
    let mut i: usize = 0;
    while i < candidates.len()
        invariant
            i <= candidates@.len(),
            views == record_views(candidates@),
            match best {
                Some(b) => b < i && is_best(views.take(i as int), expected_name@, b as int),
                None => forall|j: int|
                    0 <= j < i ==> !is_candidate(#[trigger] views[j], expected_name@),
            },
        decreases candidates@.len() - i,
    {
        let r = &candidates[i];
        let ghost before = views.take(i as int);
        let ghost after = views.take(i + 1);
        proof {
            assert(after =~= before.push(views[i as int]));
            assert(views[i as int] == r@);
        }
        if bytes_eq(r.payload.name.as_slice(), expected_name.as_slice())
            && verify_ipns_record(r).is_ok() {
            let newer = match best {
                Some(b) => is_head_before(
                    candidates[b].payload.sequence,
                    candidates[b].payload.validity,
                    r.payload.sequence,
                    r.payload.validity,
                ),
                None => true,
            };
            proof {
                if let Some(b) = best {
                    assert(before[b as int] == candidates@[b as int]@);
                    assert forall|j: int|
                        0 <= j < before.len() && is_candidate(
                            #[trigger] before[j],
                            expected_name@,
                        ) implies after[j] == before[j] by {}
                } else {
                    assert forall|j: int|
                        0 <= j < before.len() implies !is_candidate(
                            #[trigger] before[j],
                            expected_name@,
                        ) by {
                        assert(before[j] == views[j]);
                    }
                }
            }
            if newer {
                best = Some(i);
                proof {
                    assert(after[i as int] == r@);
                    assert forall|j: int|
                        0 <= j < i && is_candidate(#[trigger] after[j], expected_name@) implies older(
                        after[j],
                        r@,
                    ) by {
                        assert(after[j] == before[j]);
                    }
                    assert(is_best(after, expected_name@, i as int));
                }
            } else {
                proof {
                    let b = best->Some_0 as int;
                    assert(after[b] == before[b]);
                    assert forall|j: int|
                        0 <= j < after.len() && is_candidate(
                            #[trigger] after[j],
                            expected_name@,
                        ) implies !older(after[b], after[j]) by {
                        if j < i {
                            assert(after[j] == before[j]);
                        }
                    }
                    assert forall|j: int|
                        0 <= j < b && is_candidate(#[trigger] after[j], expected_name@) implies older(
                        after[j],
                        after[b],
                    ) by {
                        assert(after[j] == before[j]);
                    }
                }
            }
        } else {
            proof {
                assert(!is_candidate(views[i as int], expected_name@));
                if let Some(b) = best {
                    assert(after[b as int] == before[b as int]);
                    assert forall|j: int|
                        0 <= j < after.len() && is_candidate(
                            #[trigger] after[j],
                            expected_name@,
                        ) implies !older(after[b as int], after[j]) by {
                        if j < i {
                            assert(after[j] == before[j]);
                        }
                    }
                    assert forall|j: int|
                        0 <= j < b && is_candidate(#[trigger] after[j], expected_name@) implies older(
                        after[j],
                        after[b as int],
                    ) by {
                        assert(after[j] == before[j]);
                    }
                }
            }
        }
        i += 1;
    }
    assert(views.take(i as int) =~= views);
    match best {
        Some(b) => {
            assert(is_best(views, expected_name@, b as int));
            Some(&candidates[b])
        },
        None => None,
    }
}

/// Whether two records prove that an account signed two histories: same sequence, different
/// heads, both good.
pub open spec fn is_record_fork(a: RecordModel, b: RecordModel, name: Seq<u8>) -> bool {
    &&& is_candidate(a, name)
    &&& is_candidate(b, name)
    &&& a.payload.sequence == b.payload.sequence
    &&& a.payload.value != b.payload.value
}

/// The pairs `(i, k)` with `i < k < j` that are forks, by rising `k`.
pub open spec fn fork_row(records: Seq<RecordModel>, name: Seq<u8>, i: int, j: int) -> Seq<
    (RecordModel, RecordModel),
>
    decreases j - i,
{
    if j <= i + 1 {
        Seq::empty()
    } else {
        let row = fork_row(records, name, i, j - 1);
        if is_record_fork(records[i], records[j - 1], name) {
            row.push((records[i], records[j - 1]))
        } else {
            row
        }
    }
}

/// The pairs of records that are forks and whose first is among the first `i`, in the order
/// of the first and then of the second.
pub open spec fn fork_rows(records: Seq<RecordModel>, name: Seq<u8>, i: int) -> Seq<
    (RecordModel, RecordModel),
>
    decreases i,
{
    if i <= 0 {
        Seq::empty()
    } else {
        fork_rows(records, name, i - 1) + fork_row(records, name, i - 1, records.len() as int)
    }
}

/// All pairs of records that are forks, in the order of the first and then of the second.
pub open spec fn record_forks(records: Seq<RecordModel>, name: Seq<u8>) -> Seq<
    (RecordModel, RecordModel),
> {
    fork_rows(records, name, records.len() as int)
}

/// The views of a list of pairs of records.
pub open spec fn pair_views(pairs: Seq<(&IpnsRecord, &IpnsRecord)>) -> Seq<
    (RecordModel, RecordModel),
> {
    pairs.map_values(|p: (&IpnsRecord, &IpnsRecord)| (p.0@, p.1@))
}

/// Lists the forks among the records of an account: pairs of good records that point at
/// different heads under one sequence. A record issued again with a new validity is no fork.
pub fn find_record_forks<'a>(expected_name: &[u8; 32], candidates: &'a [IpnsRecord]) -> (res: Vec<
    (&'a IpnsRecord, &'a IpnsRecord),
>)
    ensures
        pair_views(res@) == record_forks(record_views(candidates@), expected_name@),
{
    let ghost views = record_views(candidates@);
    let n: usize = candidates.len();
    let mut good: Vec<bool> = Vec::new();
    let mut k: usize = 0;
    while k < n
        invariant
            k <= n == candidates@.len(),
            views == record_views(candidates@),
            good@.len() == k,
            forall|j: int| 0 <= j < k ==> good@[j] == is_candidate(#[trigger] views[j], expected_name@),
        decreases n - k,
    {
        let r = &candidates[k];
        let ok = bytes_eq(r.payload.name.as_slice(), expected_name.as_slice())
            && verify_ipns_record(r).is_ok();
        good.push(ok);
        k += 1;
    }
    let mut pairs: Vec<(&'a IpnsRecord, &'a IpnsRecord)> = Vec::new();
    let mut i: usize = 0;
    while i < n
        invariant
            i <= n == candidates@.len(),
            views == record_views(candidates@),
            good@.len() == n,
            forall|j: int| 0 <= j < n ==> good@[j] == is_candidate(#[trigger] views[j], expected_name@),
            pair_views(pairs@) == fork_rows(views, expected_name@, i as int),
        decreases n - i,
    {
        let mut j: usize = i + 1;
        while j < n
            invariant
                i < n == candidates@.len(),
                i < j <= n,
                views == record_views(candidates@),
                good@.len() == n,
                forall|j: int|
                    0 <= j < n ==> good@[j] == is_candidate(#[trigger] views[j], expected_name@),
                pair_views(pairs@) == fork_rows(views, expected_name@, i as int) + fork_row(
                    views,
                    expected_name@,
                    i as int,
                    j as int,
                ),
            decreases n - j,
        {
            let a = &candidates[i];
            let b = &candidates[j];
            proof {
                assert(views[i as int] == a@ && views[j as int] == b@);
            }
            let ghost before = pairs@;
            if good[i] && good[j] && a.payload.sequence == b.payload.sequence
                && !a.payload.value.same(&b.payload.value) {
                pairs.push((a, b));
                assert(pair_views(pairs@) =~= pair_views(before).push((a@, b@)));
            }
            assert(pair_views(pairs@) =~= fork_rows(views, expected_name@, i as int) + fork_row(
                views,
                expected_name@,
                i as int,
                j + 1,
            ));
            j += 1;
        }
        i += 1;
    }
    pairs
}

proof fn fork_row_contains(
    records: Seq<RecordModel>,
    name: Seq<u8>,
    i: int,
    j: int,
    pair: (RecordModel, RecordModel),
)
    requires
        0 <= i < j <= records.len(),
    ensures
        fork_row(records, name, i, j).contains(pair) <==> exists|k: int|
            i < k < j && pair == (records[i], #[trigger] records[k]) && is_record_fork(
                pair.0,
                pair.1,
                name,
            ),
    decreases j - i,
{
    let row = fork_row(records, name, i, j);
    if j > i + 1 {
        let before = fork_row(records, name, i, j - 1);
        fork_row_contains(records, name, i, j - 1, pair);
        if row.contains(pair) {
            let a = choose|a: int| 0 <= a < row.len() && row[a] == pair;
            if a < before.len() {
                assert(before[a] == pair);
            } else {
                assert(pair == (records[i], records[j - 1]));
            }
        }
        if before.contains(pair) {
            let a = choose|a: int| 0 <= a < before.len() && before[a] == pair;
            assert(row[a] == pair);
        }
        if is_record_fork(records[i], records[j - 1], name) {
            assert(row[before.len() as int] == (records[i], records[j - 1]));
        }
    }
}

proof fn fork_rows_contain(
    records: Seq<RecordModel>,
    name: Seq<u8>,
    n: int,
    pair: (RecordModel, RecordModel),
)
    requires
        0 <= n <= records.len(),
    ensures
        fork_rows(records, name, n).contains(pair) <==> exists|i: int, k: int|
            0 <= i < n && i < k < records.len() && pair == (#[trigger] records[i], #[trigger]
                records[k]) && is_record_fork(pair.0, pair.1, name),
    decreases n,
{
    let rows = fork_rows(records, name, n);
    if n > 0 {
        let before = fork_rows(records, name, n - 1);
        let row = fork_row(records, name, n - 1, records.len() as int);
        fork_rows_contain(records, name, n - 1, pair);
        fork_row_contains(records, name, n - 1, records.len() as int, pair);
        assert(rows.contains(pair) <==> before.contains(pair) || row.contains(pair)) by {
            if rows.contains(pair) {
                let a = choose|a: int| 0 <= a < rows.len() && rows[a] == pair;
                if a < before.len() {
                    assert(before[a] == pair);
                } else {
                    assert(row[a - before.len()] == pair);
                }
            }
            if before.contains(pair) {
                let a = choose|a: int| 0 <= a < before.len() && before[a] == pair;
                assert(rows[a] == pair);
            }
            if row.contains(pair) {
                let a = choose|a: int| 0 <= a < row.len() && row[a] == pair;
                assert(rows[before.len() + a] == pair);
            }
        }
    }
}

/// The forks among records are exactly the pairs that contradict each other.
pub proof fn record_forks_are_the_contradictions(
    records: Seq<RecordModel>,
    name: Seq<u8>,
    pair: (RecordModel, RecordModel),
)
    ensures
        record_forks(records, name).contains(pair) <==> exists|i: int, k: int|
            0 <= i < k < records.len() && pair == (#[trigger] records[i], #[trigger] records[k])
                && is_record_fork(pair.0, pair.1, name),
{
    fork_rows_contain(records, name, records.len() as int, pair);
}

/// There is at most one record to choose.
pub proof fn best_is_unique(records: Seq<RecordModel>, name: Seq<u8>, i: int, j: int)
    requires
        is_best(records, name, i),
        is_best(records, name, j),
    ensures
        i == j,
{
}

/// More sources never make the choice worse: among more records no older one is chosen.
pub proof fn more_records_choose_no_older(
    some: Seq<RecordModel>,
    all: Seq<RecordModel>,
    name: Seq<u8>,
    i: int,
    j: int,
)
    requires
        forall|k: int| 0 <= k < some.len() ==> all.contains(#[trigger] some[k]),
        is_best(some, name, i),
        is_best(all, name, j),
    ensures
        !older(all[j], some[i]),
{
    assert(all.contains(some[i]));
    let k = choose|k: int| 0 <= k < all.len() && all[k] == some[i];
    assert(is_candidate(all[k], name));
}

/// A record that was issued again, with the same head and a later validity, is newer than the
/// one before it, and no fork.
pub proof fn reissued_record_is_newer(a: RecordModel, b: RecordModel, name: Seq<u8>)
    requires
        a.payload.sequence == b.payload.sequence,
        a.payload.value == b.payload.value,
        a.payload.validity < b.payload.validity,
    ensures
        older(a, b),
        !is_record_fork(a, b, name),
{
}

// ---------------------------------------------------------------------------
// Topics
// ---------------------------------------------------------------------------

/// The topic on which an account's records are announced.
pub open spec fn feed_topic(pubkey_hex: Seq<char>) -> Seq<char> {
    "deilephila/feed/"@ + pubkey_hex
}

/// The name of the topic on which an account's records are announced.
pub fn feed_topic_str(pubkey_hex: &str) -> (res: String)
    ensures
        res@ == feed_topic(pubkey_hex@),
{
    let s = "deilephila/feed/".to_owned();
    s.concat(pubkey_hex)
}

/// No two accounts share a topic.
pub proof fn feed_topic_injective(a: Seq<char>, b: Seq<char>)
    requires
        feed_topic(a) == feed_topic(b),
    ensures
        a == b,
{
    let n = "deilephila/feed/"@.len() as int;
    assert(feed_topic(a).skip(n) =~= a);
    assert(feed_topic(b).skip(n) =~= b);
}

/// A record comes before another if and only if its sequence is lower, or the sequences are the
/// same and its validity is earlier.
pub proof fn records_are_ordered_by_sequence_then_validity(a: RecordModel, b: RecordModel)
    ensures
        older(a, b) <==> a.payload.sequence < b.payload.sequence || (a.payload.sequence
            == b.payload.sequence && a.payload.validity < b.payload.validity),
{
}

/// The record that is chosen for an account names it, carries its signature, and is not beaten
/// by any other such record, whether or not it has run out.
pub proof fn chosen_record_is_the_newest_signed(records: Seq<RecordModel>, name: Seq<u8>, i: int)
    ensures
        is_best(records, name, i) <==> {
            &&& 0 <= i < records.len()
            &&& records[i].payload.name == name
            &&& ed25519_key_valid(name)
            &&& ed25519_verifies(
                name,
                dag_cbor_bytes(record_payload_tree(records[i].payload)),
                records[i].signature,
            )
            &&& forall|j: int|
                0 <= j < records.len() && (#[trigger] records[j]).payload.name == name
                    && ed25519_verifies(
                    name,
                    dag_cbor_bytes(record_payload_tree(records[j].payload)),
                    records[j].signature,
                ) ==> {
                    ||| records[j].payload.sequence < records[i].payload.sequence
                    ||| records[j].payload.sequence == records[i].payload.sequence
                        && records[j].payload.validity < records[i].payload.validity
                    ||| records[j].payload.sequence == records[i].payload.sequence
                        && records[j].payload.validity == records[i].payload.validity && i <= j
                }
        },
{
    if 0 <= i < records.len() {
        assert forall|j: int| 0 <= j < records.len() && ed25519_key_valid(name) implies (
        is_candidate(#[trigger] records[j], name) <==> records[j].payload.name == name
            && ed25519_verifies(
            name,
            dag_cbor_bytes(record_payload_tree(records[j].payload)),
            records[j].signature,
        )) by {}
    }
}

/// As long as one of the records was signed by the account that it names, one is chosen.
pub proof fn signed_record_is_chosen(records: Seq<RecordModel>, name: Seq<u8>, k: int)
    requires
        0 <= k < records.len(),
        records[k].payload.name == name,
        ed25519_key_valid(name),
        ed25519_verifies(
            name,
            dag_cbor_bytes(record_payload_tree(records[k].payload)),
            records[k].signature,
        ),
    ensures
        exists|i: int| is_best(records, name, i),
    decreases records.len(),
{
    let init = records.drop_last();
    let n = records.len() - 1;
    assert(is_candidate(records[k], name));
    if exists|j: int| 0 <= j < n && is_candidate(#[trigger] init[j], name) {
        let j = choose|j: int| 0 <= j < n && is_candidate(#[trigger] init[j], name);
        signed_record_is_chosen(init, name, j);
        let i = choose|i: int| is_best(init, name, i);
        assert(records[i] == init[i]);
        if is_candidate(records[n], name) && older(records[i], records[n]) {
            assert forall|m: int|
                0 <= m < records.len() && is_candidate(#[trigger] records[m], name) implies !older(
                records[n],
                records[m],
            ) && (m < n ==> older(records[m], records[n])) by {
                if m < n {
                    assert(init[m] == records[m]);
                }
            }
            assert(is_best(records, name, n));
        } else {
            assert forall|m: int|
                0 <= m < records.len() && is_candidate(#[trigger] records[m], name) implies !older(
                records[i],
                records[m],
            ) && (m < i ==> older(records[m], records[i])) by {
                if m < n {
                    assert(init[m] == records[m]);
                }
            }
            assert(is_best(records, name, i));
        }
    } else {
        assert forall|m: int| 0 <= m < n implies !is_candidate(#[trigger] records[m], name) by {
            assert(init[m] == records[m]);
        }
        assert(is_best(records, name, n));
    }
}

/// Two records are a fork if and only if both carry the signature of the account, have the same
/// sequence and point at different heads; their validity and their names play no part.
pub proof fn record_fork_is_two_heads(a: RecordModel, b: RecordModel, name: Seq<u8>)
    ensures
        is_record_fork(a, b, name) <==> {
            &&& a.payload.name == name && b.payload.name == name
            &&& ed25519_key_valid(name)
            &&& ed25519_verifies(name, dag_cbor_bytes(record_payload_tree(a.payload)), a.signature)
            &&& ed25519_verifies(name, dag_cbor_bytes(record_payload_tree(b.payload)), b.signature)
            &&& a.payload.sequence == b.payload.sequence
            &&& a.payload.value != b.payload.value
        },
{
}

/// A signed record holds what it was made of, and the signature of its key pair over that.
pub proof fn signed_record_holds_its_parts(
    seed: Seq<u8>,
    sequence: u64,
    value: Seq<u8>,
    validity: i64,
    profile_cid: Option<Seq<u8>>,
    display_name: Seq<char>,
)
    ensures
        ({
            let r = signed_record(seed, sequence, value, validity, profile_cid, display_name);
            &&& r.payload.name == ed25519_public(seed)
            &&& r.payload.sequence == sequence
            &&& r.payload.value == value
            &&& r.payload.validity == validity
            &&& r.payload.profile_cid == profile_cid
            &&& r.payload.display_name == display_name
            &&& r.signature == ed25519_signature(
                seed,
                dag_cbor_bytes(record_payload_tree(r.payload)),
            )
        }),
{
}

/// A record's payload is written as a map with these six entries and no other.
pub proof fn record_is_written_whole(p: RecordPayloadModel)
    ensures
        record_payload_tree(p) matches Tree::Fields(m) && {
            &&& m.dom() == set![
                "name"@,
                "value"@,
                "sequence"@,
                "validity"@,
                "profile_cid"@,
                "display_name"@,
            ]
            &&& m["name"@] == Tree::Bytes(p.name)
            &&& m["value"@] == Tree::Link(p.value)
            &&& m["sequence"@] == Tree::Int(p.sequence as int)
            &&& m["validity"@] == Tree::Int(p.validity as int)
            &&& m["profile_cid"@] == match p.profile_cid {
                Some(c) => Tree::Link(c),
                None => Tree::Null,
            }
            &&& m["display_name"@] == Tree::Text(p.display_name)
        },
{
    record_keys_differ();
    let m = record_payload_tree(p)->Fields_0;
    assert(m.dom() =~= set![
        "name"@,
        "value"@,
        "sequence"@,
        "validity"@,
        "profile_cid"@,
        "display_name"@,
    ]);
}

/// A record lives for forty-eight hours, and its topic is its account's key behind a fixed
/// prefix.
pub proof fn records_live_two_days(pubkey_hex: Seq<char>)
    ensures
        RECORD_LIFETIME_MS == 48 * 60 * 60 * 1000,
        feed_topic(pubkey_hex) == "deilephila/feed/"@ + pubkey_hex,
{
}

/// The bytes of a record are the encoding of its payload and its signature.
pub proof fn record_bytes_hold_payload_and_signature(r: RecordModel)
    ensures
        record_tree(r) matches Tree::Fields(m) && m.dom() == set!["payload"@, "signature"@]
            && m["payload"@] == record_payload_tree(r.payload) && m["signature"@] == Tree::Bytes(
            r.signature,
        ),
        record_block(r) == dag_cbor_bytes(record_tree(r)),
{
    record_keys_differ();
    let m = record_tree(r)->Fields_0;
    assert(m.dom() =~= set!["payload"@, "signature"@]);
}

/// Reading a record's payload looks at six entries and at nothing else, and gives exactly what
/// they hold; the profile may be missing or null.
pub proof fn record_payload_is_read_from_its_entries(tree: Tree, p: RecordPayloadModel)
    ensures
        record_payload_of_tree(tree) == Some(p) <==> (tree matches Tree::Fields(m) && {
            &&& m.dom().contains("name"@) && m["name"@] == Tree::Bytes(p.name) && p.name.len() == 32
            &&& m.dom().contains("value"@) && m["value"@] == Tree::Link(p.value)
            &&& m.dom().contains("sequence"@) && m["sequence"@] == Tree::Int(p.sequence as int)
            &&& m.dom().contains("validity"@) && m["validity"@] == Tree::Int(p.validity as int)
            &&& match p.profile_cid {
                Some(c) => m.dom().contains("profile_cid"@) && m["profile_cid"@] == Tree::Link(c),
                None => !m.dom().contains("profile_cid"@) || m["profile_cid"@] == Tree::Null,
            }
            &&& m.dom().contains("display_name"@) && m["display_name"@] == Tree::Text(
                p.display_name,
            )
        }),
{
}

/// Reading a record looks at its payload and its signature of 64 bytes, and at nothing else.
pub proof fn record_is_read_from_its_entries(tree: Tree, r: RecordModel)
    ensures
        record_of_tree(tree) == Some(r) <==> (tree matches Tree::Fields(m) && {
            &&& m.dom().contains("payload"@) && record_payload_of_tree(m["payload"@]) == Some(
                r.payload,
            )
            &&& m.dom().contains("signature"@) && m["signature"@] == Tree::Bytes(r.signature)
                && r.signature.len() == 64
        }),
{
}

/// A byte string holds a record if and only if the codec reads it as a value that is one.
pub proof fn bytes_hold_what_the_codec_reads(bytes: Seq<u8>, r: RecordModel)
    ensures
        record_of_bytes(bytes) == Ok::<RecordModel, Seq<char>>(r) <==> (dag_cbor_parse(
            bytes,
        ) matches Ok(tree) && record_of_tree(tree) == Some(r)),
{
}

/// What is said of a record is said of all that it holds.
pub proof fn record_is_seen_whole(r: IpnsRecord)
    ensures
        r@.signature == r.signature@,
        r@.payload.name == r.payload.name@,
        r@.payload.value == r.payload.value@,
        r@.payload.sequence == r.payload.sequence,
        r@.payload.validity == r.payload.validity,
        r@.payload.profile_cid is Some <==> r.payload.profile_cid is Some,
        r.payload.profile_cid matches Some(c) ==> r@.payload.profile_cid == Some(c@),
        r@.payload.display_name == r.payload.display_name@,
{
}

} // verus!
