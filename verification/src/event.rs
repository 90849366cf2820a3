//! Events: their model, their encoding, and the checks that one event must pass.

use crate::cid::{block_cid, bytes_eq, bytes_to_cid, is_cid, sha2_256, Cid};
use crate::dag_cbor::{
    cid_option, dag_cbor_bytes, dag_cbor_parse, decode, encodable, encodable_deeper, encode, encodes,
    has_field_count, ipld_bytes, ipld_empty_map, ipld_field, ipld_field_count, ipld_int,
    ipld_shape, ipld_text, ipld_tree, ipld_with_field, key_views, keys_tree, keys_tree_roundtrip,
    optional_link_tree, read_bytes, read_i64, read_keys, read_link, read_optional_link,
    read_text, read_u64, tree_bytes, tree_field, tree_i64, tree_keys, tree_link,
    tree_optional_link, tree_text, tree_u64, write_keys, write_link, write_optional_link, Shape,
    Tree, MAX_DEPTH,
};
use crate::identity::{ed25519_key_valid, ed25519_verifies, verify_signature};
use ipld_core::ipld::Ipld;
use crate::util::{decimal, u64_to_text};
use vstd::prelude::*;
use vstd::string::*;

verus! {

// ---------------------------------------------------------------------------
// Types and their models
// ---------------------------------------------------------------------------

/// A signed event.
#[derive(Debug)]
pub struct EventEnvelope {
    pub payload: EventPayload,
    pub signature: [u8; 64],
}

/// What an event says, and what its signature covers.
#[derive(Debug)]
pub struct EventPayload {
    /// Position in the author's chain; the genesis event has 0.
    pub seq: u64,
    pub kind: EventKind,
    /// The CID of the event before this one; `None` for the genesis event alone.
    pub prev: Option<Cid>,
    /// The author's public key.
    pub author: [u8; 32],
    /// Milliseconds since the Unix epoch, as the author claims.
    pub timestamp: i64,
}

/// What an event does.
#[derive(Debug)]
pub enum EventKind {
    Post { text: String },
    Edit { text: String, target: Cid },
    Delete { target: Cid },
    Profile { bio: String, avatar_cid: Option<Cid>, display_name: String },
    Follow { added: Vec<[u8; 32]>, removed: Vec<[u8; 32]> },
    Reply { text: String, target: Cid },
}

/// Model of [`EventKind`].
pub enum KindModel {
    Post { text: Seq<char> },
    Edit { text: Seq<char>, target: Seq<u8> },
    Delete { target: Seq<u8> },
    Profile { bio: Seq<char>, avatar_cid: Option<Seq<u8>>, display_name: Seq<char> },
    Follow { added: Seq<Seq<u8>>, removed: Seq<Seq<u8>> },
    Reply { text: Seq<char>, target: Seq<u8> },
}

/// Model of [`EventPayload`].
pub struct PayloadModel {
    pub seq: u64,
    pub kind: KindModel,
    pub prev: Option<Seq<u8>>,
    pub author: Seq<u8>,
    pub timestamp: i64,
}

/// Model of [`EventEnvelope`].
pub struct EnvelopeModel {
    pub payload: PayloadModel,
    pub signature: Seq<u8>,
}

impl View for EventKind {
    type V = KindModel;

    open spec fn view(&self) -> KindModel {
        match *self {
            EventKind::Post { text } => KindModel::Post { text: text@ },
            EventKind::Edit { text, target } => KindModel::Edit { text: text@, target: target@ },
            EventKind::Delete { target } => KindModel::Delete { target: target@ },
            EventKind::Profile { bio, avatar_cid, display_name } => KindModel::Profile {
                bio: bio@,
                avatar_cid: cid_option(avatar_cid),
                display_name: display_name@,
            },
            EventKind::Follow { added, removed } => KindModel::Follow {
                added: key_views(added@),
                removed: key_views(removed@),
            },
            EventKind::Reply { text, target } => KindModel::Reply { text: text@, target: target@ },
        }
    }
}

impl View for EventPayload {
    type V = PayloadModel;

    open spec fn view(&self) -> PayloadModel {
        PayloadModel {
            seq: self.seq,
            kind: self.kind@,
            prev: cid_option(self.prev),
            author: self.author@,
            timestamp: self.timestamp,
        }
    }
}

impl View for EventEnvelope {
    type V = EnvelopeModel;

    open spec fn view(&self) -> EnvelopeModel {
        EnvelopeModel { payload: self.payload@, signature: self.signature@ }
    }
}

pub(crate) fn clone_optional_cid(c: &Option<Cid>) -> (res: Option<Cid>)
    ensures
        cid_option(res) == cid_option(*c),
{
    match c {
        Some(c) => Some(c.clone()),
        None => None,
    }
}

fn clone_keys(keys: &Vec<[u8; 32]>) -> (res: Vec<[u8; 32]>)
    ensures
        res@ == keys@,
{
    let mut res: Vec<[u8; 32]> = Vec::new();
    let mut i: usize = 0;
    while i < keys.len()
        invariant
            i <= keys@.len(),
            res@ =~= keys@.take(i as int),
        decreases keys@.len() - i,
    {
        res.push(keys[i]);
        assert(keys@.take(i + 1) =~= keys@.take(i as int).push(keys@[i as int]));
        i += 1;
    }
    assert(keys@.take(i as int) =~= keys@);
    res
}

impl Clone for EventKind {
    fn clone(&self) -> (res: Self)
        ensures
            res@ == self@,
    {
        match self {
            EventKind::Post { text } => EventKind::Post { text: text.clone() },
            EventKind::Edit { text, target } => EventKind::Edit {
                text: text.clone(),
                target: target.clone(),
            },
            EventKind::Delete { target } => EventKind::Delete { target: target.clone() },
            EventKind::Profile { bio, avatar_cid, display_name } => EventKind::Profile {
                bio: bio.clone(),
                avatar_cid: clone_optional_cid(avatar_cid),
                display_name: display_name.clone(),
            },
            EventKind::Follow { added, removed } => EventKind::Follow {
                added: clone_keys(added),
                removed: clone_keys(removed),
            },
            EventKind::Reply { text, target } => EventKind::Reply {
                text: text.clone(),
                target: target.clone(),
            },
        }
    }
}

impl Clone for EventPayload {
    fn clone(&self) -> (res: Self)
        ensures
            res@ == self@,
    {
        EventPayload {
            seq: self.seq,
            kind: self.kind.clone(),
            prev: clone_optional_cid(&self.prev),
            author: self.author,
            timestamp: self.timestamp,
        }
    }
}

impl Clone for EventEnvelope {
    fn clone(&self) -> (res: Self)
        ensures
            res@ == self@,
    {
        EventEnvelope { payload: self.payload.clone(), signature: self.signature }
    }
}

/// The name of an event kind.
pub open spec fn kind_name(kind: KindModel) -> Seq<char> {
    match kind {
        KindModel::Post { .. } => "Post"@,
        KindModel::Edit { .. } => "Edit"@,
        KindModel::Delete { .. } => "Delete"@,
        KindModel::Profile { .. } => "Profile"@,
        KindModel::Follow { .. } => "Follow"@,
        KindModel::Reply { .. } => "Reply"@,
    }
}

impl EventKind {
    /// The name of the kind.
    pub fn to_string(&self) -> (res: String)
        ensures
            res@ == kind_name(self@),
    {
        match self {
            EventKind::Post { .. } => "Post".to_owned(),
            EventKind::Edit { .. } => "Edit".to_owned(),
            EventKind::Delete { .. } => "Delete".to_owned(),
            EventKind::Profile { .. } => "Profile".to_owned(),
            EventKind::Follow { .. } => "Follow".to_owned(),
            EventKind::Reply { .. } => "Reply".to_owned(),
        }
    }
}

// ---------------------------------------------------------------------------
// Encoding
// ---------------------------------------------------------------------------

/// Whether every key in a list has 32 bytes.
pub open spec fn valid_keys(keys: Seq<Seq<u8>>) -> bool {
    forall|i: int| 0 <= i < keys.len() ==> (#[trigger] keys[i]).len() == 32
}

/// Whether a kind holds real CIDs and keys.
pub open spec fn valid_kind(kind: KindModel) -> bool {
    match kind {
        KindModel::Post { .. } => true,
        KindModel::Edit { target, .. } => is_cid(target),
        KindModel::Delete { target } => is_cid(target),
        KindModel::Profile { avatar_cid, .. } => avatar_cid matches Some(c) ==> is_cid(c),
        KindModel::Follow { added, removed } => valid_keys(added) && valid_keys(removed),
        KindModel::Reply { target, .. } => is_cid(target),
    }
}

/// Whether a payload holds real CIDs and keys.
pub open spec fn valid_payload(p: PayloadModel) -> bool {
    &&& valid_kind(p.kind)
    &&& p.prev matches Some(c) ==> is_cid(c)
    &&& p.author.len() == 32
}

/// Whether an envelope holds real CIDs and keys.
pub open spec fn valid_envelope(e: EnvelopeModel) -> bool {
    valid_payload(e.payload) && e.signature.len() == 64
}

/// A map with one entry.
pub open spec fn one_field(key: Seq<char>, value: Tree) -> Tree {
    Tree::Fields(Map::<Seq<char>, Tree>::empty().insert(key, value))
}

/// The fields of a kind, without its name.
pub open spec fn kind_fields(kind: KindModel) -> Tree {
    let empty = Map::<Seq<char>, Tree>::empty();
    match kind {
        KindModel::Post { text } => one_field("text"@, Tree::Text(text)),
        KindModel::Edit { text, target } => Tree::Fields(
            empty.insert("text"@, Tree::Text(text)).insert("target"@, Tree::Link(target)),
        ),
        KindModel::Delete { target } => one_field("target"@, Tree::Link(target)),
        KindModel::Profile { bio, avatar_cid, display_name } => Tree::Fields(
            empty.insert("bio"@, Tree::Text(bio)).insert(
                "avatar_cid"@,
                optional_link_tree(avatar_cid),
            ).insert("display_name"@, Tree::Text(display_name)),
        ),
        KindModel::Follow { added, removed } => Tree::Fields(
            empty.insert("added"@, keys_tree(added)).insert("removed"@, keys_tree(removed)),
        ),
        KindModel::Reply { text, target } => Tree::Fields(
            empty.insert("text"@, Tree::Text(text)).insert("target"@, Tree::Link(target)),
        ),
    }
}

/// A kind as an IPLD value: a map from its name to its fields.
pub open spec fn kind_tree(kind: KindModel) -> Tree {
    one_field(kind_name(kind), kind_fields(kind))
}

/// A payload as an IPLD value.
pub open spec fn payload_tree(p: PayloadModel) -> Tree {
    Tree::Fields(
        Map::<Seq<char>, Tree>::empty().insert("seq"@, Tree::Int(p.seq as int)).insert(
            "kind"@,
            kind_tree(p.kind),
        ).insert("prev"@, optional_link_tree(p.prev)).insert("author"@, Tree::Bytes(p.author)).insert(
            "timestamp"@,
            Tree::Int(p.timestamp as int),
        ),
    )
}

/// An envelope as an IPLD value.
pub open spec fn envelope_tree(e: EnvelopeModel) -> Tree {
    Tree::Fields(
        Map::<Seq<char>, Tree>::empty().insert("payload"@, payload_tree(e.payload)).insert(
            "signature"@,
            Tree::Bytes(e.signature),
        ),
    )
}

/// The bytes that an event's signature covers.
pub open spec fn payload_block(p: PayloadModel) -> Seq<u8> {
    dag_cbor_bytes(payload_tree(p))
}

/// The block of an event.
pub open spec fn envelope_block(e: EnvelopeModel) -> Seq<u8> {
    dag_cbor_bytes(envelope_tree(e))
}

/// The content identifier of an event.
pub open spec fn event_cid(e: EnvelopeModel) -> Seq<u8> {
    block_cid(envelope_block(e))
}

/// The kind that an IPLD value stands for: a map with one entry, from a kind's name to a map
/// with that kind's fields. Other entries of the inner map are ignored.
pub open spec fn kind_of_tree(tree: Tree) -> Option<KindModel> {
    if !has_field_count(tree, 1) {
        None
    } else if let Some(f) = tree_field(tree, "Post"@) {
        match tree_text(tree_field(f, "text"@)) {
            Some(text) => Some(KindModel::Post { text }),
            None => None,
        }
    } else if let Some(f) = tree_field(tree, "Edit"@) {
        match (tree_text(tree_field(f, "text"@)), tree_link(tree_field(f, "target"@))) {
            (Some(text), Some(target)) => Some(KindModel::Edit { text, target }),
            _ => None,
        }
    } else if let Some(f) = tree_field(tree, "Delete"@) {
        match tree_link(tree_field(f, "target"@)) {
            Some(target) => Some(KindModel::Delete { target }),
            None => None,
        }
    } else if let Some(f) = tree_field(tree, "Profile"@) {
        match (
            tree_text(tree_field(f, "bio"@)),
            tree_optional_link(tree_field(f, "avatar_cid"@)),
            tree_text(tree_field(f, "display_name"@)),
        ) {
            (Some(bio), Some(avatar_cid), Some(display_name)) => Some(
                KindModel::Profile { bio, avatar_cid, display_name },
            ),
            _ => None,
        }
    } else if let Some(f) = tree_field(tree, "Follow"@) {
        match (tree_keys(tree_field(f, "added"@)), tree_keys(tree_field(f, "removed"@))) {
            (Some(added), Some(removed)) => Some(KindModel::Follow { added, removed }),
            _ => None,
        }
    } else if let Some(f) = tree_field(tree, "Reply"@) {
        match (tree_text(tree_field(f, "text"@)), tree_link(tree_field(f, "target"@))) {
            (Some(text), Some(target)) => Some(KindModel::Reply { text, target }),
            _ => None,
        }
    } else {
        None
    }
}

/// The payload that an IPLD value stands for. A missing `prev` reads as null; entries that a
/// payload does not have are ignored.
pub open spec fn payload_of_tree(tree: Tree) -> Option<PayloadModel> {
    let kind = match tree_field(tree, "kind"@) {
        Some(t) => kind_of_tree(t),
        None => None,
    };
    match (
        tree_u64(tree_field(tree, "seq"@)),
        kind,
        tree_optional_link(tree_field(tree, "prev"@)),
        tree_bytes(tree_field(tree, "author"@), 32),
        tree_i64(tree_field(tree, "timestamp"@)),
    ) {
        (Some(seq), Some(kind), Some(prev), Some(author), Some(timestamp)) => Some(
            PayloadModel { seq, kind, prev, author, timestamp },
        ),
        _ => None,
    }
}

/// The envelope that an IPLD value stands for.
pub open spec fn envelope_of_tree(tree: Tree) -> Option<EnvelopeModel> {
    let payload = match tree_field(tree, "payload"@) {
        Some(t) => payload_of_tree(t),
        None => None,
    };
    match (payload, tree_bytes(tree_field(tree, "signature"@), 64)) {
        (Some(payload), Some(signature)) => Some(EnvelopeModel { payload, signature }),
        _ => None,
    }
}

/// The event in a block, or why there is none: the codec's message, or that the value is no
/// event. A block is DAG-CBOR throughout: bytes that are no value of the IPLD data model hold no
/// event. Fields that an event does not have are passed over.
pub open spec fn envelope_of_block(block: Seq<u8>) -> Result<EnvelopeModel, Seq<char>> {
    match dag_cbor_parse(block) {
        Ok(tree) => match envelope_of_tree(tree) {
            Some(e) => Ok(e),
            None => Err("not an event"@),
        },
        Err(message) => Err(message),
    }
}

proof fn kind_names_differ()
    ensures
        "Post"@ != "Edit"@,
        "Post"@ != "Delete"@,
        "Post"@ != "Profile"@,
        "Post"@ != "Follow"@,
        "Post"@ != "Reply"@,
        "Edit"@ != "Delete"@,
        "Edit"@ != "Profile"@,
        "Edit"@ != "Follow"@,
        "Edit"@ != "Reply"@,
        "Delete"@ != "Profile"@,
        "Delete"@ != "Follow"@,
        "Delete"@ != "Reply"@,
        "Profile"@ != "Follow"@,
        "Profile"@ != "Reply"@,
        "Follow"@ != "Reply"@,
{
    reveal_strlit("Post");
    reveal_strlit("Edit");
    reveal_strlit("Delete");
    reveal_strlit("Profile");
    reveal_strlit("Follow");
    reveal_strlit("Reply");
    assert("Post"@.len() == 4 && "Edit"@.len() == 4 && "Delete"@.len() == 6);
    assert("Profile"@.len() == 7 && "Follow"@.len() == 6 && "Reply"@.len() == 5);
    assert("Post"@[0] == 'P' && "Edit"@[0] == 'E');
    assert("Delete"@[0] == 'D' && "Follow"@[0] == 'F');
}

proof fn kind_keys_differ()
    ensures
        "text"@ != "target"@,
        "bio"@ != "avatar_cid"@,
        "bio"@ != "display_name"@,
        "avatar_cid"@ != "display_name"@,
        "added"@ != "removed"@,
{
    reveal_strlit("text");
    reveal_strlit("target");
    reveal_strlit("bio");
    reveal_strlit("avatar_cid");
    reveal_strlit("display_name");
    reveal_strlit("added");
    reveal_strlit("removed");
    assert("text"@.len() == 4 && "target"@.len() == 6);
    assert("bio"@.len() == 3 && "avatar_cid"@.len() == 10 && "display_name"@.len() == 12);
    assert("added"@.len() == 5 && "removed"@.len() == 7);
}

proof fn envelope_keys_differ()
    ensures
        "seq"@ != "kind"@,
        "seq"@ != "prev"@,
        "seq"@ != "author"@,
        "seq"@ != "timestamp"@,
        "kind"@ != "prev"@,
        "kind"@ != "author"@,
        "kind"@ != "timestamp"@,
        "prev"@ != "author"@,
        "prev"@ != "timestamp"@,
        "author"@ != "timestamp"@,
        "payload"@ != "signature"@,
{
    reveal_strlit("seq");
    reveal_strlit("kind");
    reveal_strlit("prev");
    reveal_strlit("author");
    reveal_strlit("timestamp");
    reveal_strlit("payload");
    reveal_strlit("signature");
    assert("seq"@.len() == 3 && "kind"@.len() == 4 && "prev"@.len() == 4);
    assert("author"@.len() == 6 && "timestamp"@.len() == 9);
    assert("payload"@.len() == 7 && "signature"@.len() == 9);
    assert("kind"@[0] == 'k' && "prev"@[0] == 'p');
}

proof fn one_field_facts(key: Seq<char>, value: Tree)
    ensures
        has_field_count(one_field(key, value), 1),
        tree_field(one_field(key, value), key) == Some(value),
        forall|other: Seq<char>|
            other != key ==> #[trigger] tree_field(one_field(key, value), other) is None,
{
    let m = Map::<Seq<char>, Tree>::empty().insert(key, value);
    assert(m.dom() =~= Set::<Seq<char>>::empty().insert(key));
}

/// Writing a kind as a value and reading it back gives the kind.
pub proof fn kind_tree_roundtrip(kind: KindModel)
    requires
        valid_kind(kind),
    ensures
        kind_of_tree(kind_tree(kind)) == Some(kind),
        encodable(kind_tree(kind), 3),
{
    kind_names_differ();
    kind_keys_differ();
    one_field_facts(kind_name(kind), kind_fields(kind));
    let fields = kind_fields(kind);
    match kind {
        KindModel::Post { text } => {
            one_field_facts("text"@, Tree::Text(text));
            assert(encodable(Tree::Text(text), 1));
        },
        KindModel::Edit { text, target } => {
            assert(encodable(Tree::Text(text), 1));
            assert(encodable(Tree::Link(target), 1));
        },
        KindModel::Delete { target } => {
            one_field_facts("target"@, Tree::Link(target));
            assert(encodable(Tree::Link(target), 1));
        },
        KindModel::Profile { bio, avatar_cid, display_name } => {
            assert(encodable(Tree::Text(bio), 1));
            assert(encodable(Tree::Text(display_name), 1));
            assert(encodable(optional_link_tree(avatar_cid), 1));
            assert(tree_optional_link(Some(optional_link_tree(avatar_cid))) == Some(avatar_cid));
        },
        KindModel::Follow { added, removed } => {
            keys_tree_roundtrip(added);
            keys_tree_roundtrip(removed);
        },
        KindModel::Reply { text, target } => {
            assert(encodable(Tree::Text(text), 1));
            assert(encodable(Tree::Link(target), 1));
        },
    }
    assert(encodable(fields, 2));
    assert(kind_of_tree(kind_tree(kind)) == Some(kind));
    assert(encodable(kind_tree(kind), 3));
}

/// Writing a payload as a value and reading it back gives the payload.
pub proof fn payload_tree_roundtrip(p: PayloadModel)
    requires
        valid_payload(p),
    ensures
        payload_of_tree(payload_tree(p)) == Some(p),
        encodable(payload_tree(p), 4),
{
    envelope_keys_differ();
    kind_tree_roundtrip(p.kind);
    assert(tree_optional_link(Some(optional_link_tree(p.prev))) == Some(p.prev));
    assert(encodable(optional_link_tree(p.prev), 3));
    assert(encodable(Tree::Bytes(p.author), 3));
    assert(encodable(Tree::Int(p.seq as int), 3));
    assert(encodable(Tree::Int(p.timestamp as int), 3));
    assert(payload_of_tree(payload_tree(p)) == Some(p));
}

/// Writing an envelope as a value and reading it back gives the envelope.
pub proof fn envelope_tree_roundtrip(e: EnvelopeModel)
    requires
        valid_envelope(e),
    ensures
        envelope_of_tree(envelope_tree(e)) == Some(e),
        encodable(envelope_tree(e), 5),
{
    envelope_keys_differ();
    payload_tree_roundtrip(e.payload);
    assert(encodable(Tree::Bytes(e.signature), 4));
    assert(envelope_of_tree(envelope_tree(e)) == Some(e));
}

/// The map inside an IPLD value, if it is one.
pub(crate) fn as_map(value: Ipld) -> (res: Option<Ipld>)
    ensures
        match res {
            Some(m) => ipld_tree(m) == ipld_tree(value) && ipld_tree(m) is Fields,
            None => !(ipld_tree(value) is Fields),
        },
{
    match ipld_shape(value) {
        Shape::Fields(m) => Some(m),
        _ => None,
    }
}

fn kind_to_ipld(kind: &EventKind) -> (res: Ipld)
    ensures
        ipld_tree(res) == kind_tree(kind@),
        valid_kind(kind@),
{
    let fields: Ipld = match kind {
        EventKind::Post { text } => ipld_with_field(
            ipld_empty_map(),
            "text",
            ipld_text(text.as_str()),
        ),
        EventKind::Edit { text, target } => {
            let m = ipld_with_field(ipld_empty_map(), "text", ipld_text(text.as_str()));
            ipld_with_field(m, "target", write_link(target))
        },
        EventKind::Delete { target } => ipld_with_field(
            ipld_empty_map(),
            "target",
            write_link(target),
        ),
        EventKind::Profile { bio, avatar_cid, display_name } => {
            let m = ipld_with_field(ipld_empty_map(), "bio", ipld_text(bio.as_str()));
            let m = ipld_with_field(m, "avatar_cid", write_optional_link(avatar_cid));
            ipld_with_field(m, "display_name", ipld_text(display_name.as_str()))
        },
        EventKind::Follow { added, removed } => {
            let m = ipld_with_field(ipld_empty_map(), "added", write_keys(added));
            ipld_with_field(m, "removed", write_keys(removed))
        },
        EventKind::Reply { text, target } => {
            let m = ipld_with_field(ipld_empty_map(), "text", ipld_text(text.as_str()));
            ipld_with_field(m, "target", write_link(target))
        },
    };
    let name = kind.to_string();
    ipld_with_field(ipld_empty_map(), name.as_str(), fields)
}

fn payload_to_ipld(p: &EventPayload) -> (res: Ipld)
    ensures
        ipld_tree(res) == payload_tree(p@),
        valid_payload(p@),
{
    let m = ipld_with_field(ipld_empty_map(), "seq", ipld_int(p.seq as i128));
    let m = ipld_with_field(m, "kind", kind_to_ipld(&p.kind));
    let m = ipld_with_field(m, "prev", write_optional_link(&p.prev));
    let m = ipld_with_field(m, "author", ipld_bytes(p.author.as_slice()));
    ipld_with_field(m, "timestamp", ipld_int(p.timestamp as i128))
}

fn envelope_to_ipld(e: &EventEnvelope) -> (res: Ipld)
    ensures
        ipld_tree(res) == envelope_tree(e@),
        valid_envelope(e@),
{
    let m = ipld_with_field(ipld_empty_map(), "payload", payload_to_ipld(&e.payload));
    ipld_with_field(m, "signature", ipld_bytes(e.signature.as_slice()))
}

fn kind_from_ipld(value: Ipld) -> (res: Option<EventKind>)
    ensures
        match res {
            Some(k) => kind_of_tree(ipld_tree(value)) == Some(k@),
            None => kind_of_tree(ipld_tree(value)) is None,
        },
{
    let map = match as_map(value) {
        Some(m) => m,
        None => return None,
    };
    if ipld_field_count(&map) != 1 {
        return None;
    }
    if let Some(f) = ipld_field(&map, "Post") {
        let f = match as_map(f) {
            Some(f) => f,
            None => return None,
        };
        return match read_text(&f, "text") {
            Some(text) => Some(EventKind::Post { text }),
            None => None,
        };
    }
    if let Some(f) = ipld_field(&map, "Edit") {
        let f = match as_map(f) {
            Some(f) => f,
            None => return None,
        };
        return match (read_text(&f, "text"), read_link(&f, "target")) {
            (Some(text), Some(target)) => Some(EventKind::Edit { text, target }),
            _ => None,
        };
    }
    if let Some(f) = ipld_field(&map, "Delete") {
        let f = match as_map(f) {
            Some(f) => f,
            None => return None,
        };
        return match read_link(&f, "target") {
            Some(target) => Some(EventKind::Delete { target }),
            None => None,
        };
    }
    if let Some(f) = ipld_field(&map, "Profile") {
        let f = match as_map(f) {
            Some(f) => f,
            None => return None,
        };
        return match (
            read_text(&f, "bio"),
            read_optional_link(&f, "avatar_cid"),
            read_text(&f, "display_name"),
        ) {
            (Some(bio), Some(avatar_cid), Some(display_name)) => Some(
                EventKind::Profile { bio, avatar_cid, display_name },
            ),
            _ => None,
        };
    }
    if let Some(f) = ipld_field(&map, "Follow") {
        let f = match as_map(f) {
            Some(f) => f,
            None => return None,
        };
        return match (read_keys(&f, "added"), read_keys(&f, "removed")) {
            (Some(added), Some(removed)) => Some(EventKind::Follow { added, removed }),
            _ => None,
        };
    }
    if let Some(f) = ipld_field(&map, "Reply") {
        let f = match as_map(f) {
            Some(f) => f,
            None => return None,
        };
        return match (read_text(&f, "text"), read_link(&f, "target")) {
            (Some(text), Some(target)) => Some(EventKind::Reply { text, target }),
            _ => None,
        };
    }
    None
}

fn payload_from_ipld(value: Ipld) -> (res: Option<EventPayload>)
    ensures
        match res {
            Some(p) => payload_of_tree(ipld_tree(value)) == Some(p@),
            None => payload_of_tree(ipld_tree(value)) is None,
        },
{
    let map = match as_map(value) {
        Some(m) => m,
        None => return None,
    };
    let kind = match ipld_field(&map, "kind") {
        Some(k) => kind_from_ipld(k),
        None => None,
    };
    match (
        read_u64(&map, "seq"),
        kind,
        read_optional_link(&map, "prev"),
        read_bytes::<32>(&map, "author"),
        read_i64(&map, "timestamp"),
    ) {
        (Some(seq), Some(kind), Some(prev), Some(author), Some(timestamp)) => Some(
            EventPayload { seq, kind, prev, author, timestamp },
        ),
        _ => None,
    }
}

fn envelope_from_ipld(value: Ipld) -> (res: Option<EventEnvelope>)
    ensures
        match res {
            Some(e) => envelope_of_tree(ipld_tree(value)) == Some(e@),
            None => envelope_of_tree(ipld_tree(value)) is None,
        },
{
    let map = match as_map(value) {
        Some(m) => m,
        None => return None,
    };
    let payload = match ipld_field(&map, "payload") {
        Some(p) => payload_from_ipld(p),
        None => None,
    };
    match (payload, read_bytes::<64>(&map, "signature")) {
        (Some(payload), Some(signature)) => Some(EventEnvelope { payload, signature }),
        _ => None,
    }
}

/// The bytes that an event's signature covers: the canonical DAG-CBOR of its payload, which
/// reads back as the payload.
pub fn payload_to_dag_cbor(payload: &EventPayload) -> (res: Vec<u8>)
    ensures
        res@ == payload_block(payload@),
        encodes(res@, payload_tree(payload@)),
        payload_of_tree(payload_tree(payload@)) == Some(payload@),
{
    let value = payload_to_ipld(payload);
    proof {
        payload_tree_roundtrip(payload@);
        encodable_deeper(payload_tree(payload@), 4, MAX_DEPTH as nat);
    }
    encode(&value)
}

/// The block of an event: its canonical DAG-CBOR, which reads back as the event.
pub fn envelope_to_dag_cbor(envelope: &EventEnvelope) -> (res: Vec<u8>)
    ensures
        res@ == envelope_block(envelope@),
        envelope_of_block(res@) matches Ok(e) && e == envelope@,
{
    let value = envelope_to_ipld(envelope);
    proof {
        envelope_tree_roundtrip(envelope@);
        encodable_deeper(envelope_tree(envelope@), 5, MAX_DEPTH as nat);
    }
    encode(&value)
}

/// The event in a block.
pub fn envelope_from_dag_cbor(block: &[u8]) -> (res: Result<EventEnvelope, String>)
    ensures
        match res {
            Ok(e) => envelope_of_block(block@) matches Ok(m) && m == e@,
            Err(text) => envelope_of_block(block@) matches Err(m) && m == text@,
        },
{
    match decode(block) {
        Ok(value) => match envelope_from_ipld(value) {
            Some(e) => Ok(e),
            None => Err("not an event".to_owned()),
        },
        Err(text) => Err(text),
    }
}

/// The content identifier of an event.
pub fn envelope_cid(envelope: &EventEnvelope) -> (res: Cid)
    ensures
        res@ == event_cid(envelope@),
{
    let block = envelope_to_dag_cbor(envelope);
    bytes_to_cid(block.as_slice())
}

// ---------------------------------------------------------------------------
// Checks
// ---------------------------------------------------------------------------

/// Why a signed value was refused.
#[derive(Debug, Clone, Copy, PartialEq, Eq, Structural)]
pub enum VerifyError {
    InvalidAuthorKey,
    InvalidSignature,
}

impl VerifyError {
    /// The message of the error.
    pub fn to_string(&self) -> (res: String)
        ensures
            res@ == match *self {
                VerifyError::InvalidAuthorKey => "invalid author key"@,
                VerifyError::InvalidSignature => "invalid signature"@,
            },
    {
        match self {
            VerifyError::InvalidAuthorKey => "invalid author key".to_owned(),
            VerifyError::InvalidSignature => "invalid signature".to_owned(),
        }
    }
}

/// Whether an event carries its author's signature over its payload.
pub open spec fn envelope_signed(e: EnvelopeModel) -> bool {
    &&& ed25519_key_valid(e.payload.author)
    &&& ed25519_verifies(e.payload.author, payload_block(e.payload), e.signature)
}

/// Checks the signature of an event.
pub fn verify_envelope(envelope: &EventEnvelope) -> (res: Result<(), VerifyError>)
    ensures
        res is Ok <==> envelope_signed(envelope@),
        res == Err::<(), VerifyError>(VerifyError::InvalidAuthorKey) <==> !ed25519_key_valid(
            envelope@.payload.author,
        ),
{
    let block = payload_to_dag_cbor(&envelope.payload);
    verify_signature(&envelope.payload.author, block.as_slice(), &envelope.signature)
}

/// Why an event does not fit its place in a chain.
#[derive(Debug, Clone, Copy, PartialEq, Eq, Structural)]
pub enum ChainError {
    /// The author is not the owner of the chain.
    WrongAuthor,
    /// The event has another position than the one it was found at.
    WrongSeq { expected: u64, got: u64 },
    /// A genesis event with a predecessor, or another event without one.
    BrokenPrev,
}

impl ChainError {
    /// The message of the error.
    pub fn to_string(&self) -> (res: String)
        ensures
            res@ == match *self {
                ChainError::WrongAuthor => "author does not match chain owner"@,
                ChainError::WrongSeq { expected, got } => "wrong seq: expected "@ + decimal(
                    expected as nat,
                ) + ", got "@ + decimal(got as nat),
                ChainError::BrokenPrev => "genesis/prev mismatch"@,
            },
    {
        match self {
            ChainError::WrongAuthor => "author does not match chain owner".to_owned(),
            ChainError::WrongSeq { expected, got } => {
                let s = "wrong seq: expected ".to_owned();
                let s = s.concat(u64_to_text(*expected).as_str());
                let s = s.concat(", got ");
                s.concat(u64_to_text(*got).as_str())
            },
            ChainError::BrokenPrev => "genesis/prev mismatch".to_owned(),
        }
    }
}

/// What is wrong with an event at a place in a chain, looking at the author first, then at
/// the position, then at the predecessor.
pub open spec fn chain_link_error(e: EnvelopeModel, author: Seq<u8>, seq: u64) -> Option<
    ChainError,
> {
    if e.payload.author != author {
        Some(ChainError::WrongAuthor)
    } else if e.payload.seq != seq {
        Some(ChainError::WrongSeq { expected: seq, got: e.payload.seq })
    } else if (e.payload.seq == 0) != (e.payload.prev is None) {
        Some(ChainError::BrokenPrev)
    } else {
        None
    }
}

/// Checks one event against the place in a chain where it was found. The direction in which
/// the chain is walked does not matter, nor is what `prev` points at looked at here.
pub fn verify_chain_link(
    envelope: &EventEnvelope,
    expected_author: &[u8; 32],
    expected_seq: u64,
) -> (res: Result<(), ChainError>)
    ensures
        match res {
            Ok(()) => chain_link_error(envelope@, expected_author@, expected_seq) is None,
            Err(e) => chain_link_error(envelope@, expected_author@, expected_seq) == Some(e),
        },
{
    if !bytes_eq(envelope.payload.author.as_slice(), expected_author.as_slice()) {
        return Err(ChainError::WrongAuthor);
    }
    if envelope.payload.seq != expected_seq {
        return Err(ChainError::WrongSeq { expected: expected_seq, got: envelope.payload.seq });
    }
    let is_genesis = envelope.payload.seq == 0;
    if is_genesis != envelope.payload.prev.is_none() {
        return Err(ChainError::BrokenPrev);
    }
    Ok(())
}

/// The kind of an event is written under its name, with its fields and no other: the whole
/// text, the target, the lists.
pub proof fn kind_is_written_whole(kind: KindModel)
    ensures
        kind_tree(kind) matches Tree::Fields(m) && {
            let name = match kind {
                KindModel::Post { .. } => "Post"@,
                KindModel::Edit { .. } => "Edit"@,
                KindModel::Delete { .. } => "Delete"@,
                KindModel::Profile { .. } => "Profile"@,
                KindModel::Follow { .. } => "Follow"@,
                KindModel::Reply { .. } => "Reply"@,
            };
            &&& m.dom() == set![name]
            &&& m[name] matches Tree::Fields(f) && match kind {
                KindModel::Post { text } => f.dom() == set!["text"@] && f["text"@] == Tree::Text(
                    text,
                ),
                KindModel::Edit { text, target } => f.dom() == set!["text"@, "target"@]
                    && f["text"@] == Tree::Text(text) && f["target"@] == Tree::Link(target),
                KindModel::Delete { target } => f.dom() == set!["target"@] && f["target"@]
                    == Tree::Link(target),
                KindModel::Profile { bio, avatar_cid, display_name } => f.dom() == set![
                    "bio"@,
                    "avatar_cid"@,
                    "display_name"@,
                ] && f["bio"@] == Tree::Text(bio) && f["avatar_cid"@] == (match avatar_cid {
                    Some(c) => Tree::Link(c),
                    None => Tree::Null,
                }) && f["display_name"@] == Tree::Text(display_name),
                KindModel::Follow { added, removed } => f.dom() == set!["added"@, "removed"@]
                    && f["added"@] == keys_tree(added) && f["removed"@] == keys_tree(removed),
                KindModel::Reply { text, target } => f.dom() == set!["text"@, "target"@]
                    && f["text"@] == Tree::Text(text) && f["target"@] == Tree::Link(target),
            }
        },
{
    kind_keys_differ();
    let m = kind_tree(kind)->Fields_0;
    assert(m.dom() =~= set![kind_name(kind)]);
    let f = kind_fields(kind)->Fields_0;
    match kind {
        KindModel::Post { .. } => {
            assert(f.dom() =~= set!["text"@]);
        },
        KindModel::Edit { .. } => {
            assert(f.dom() =~= set!["text"@, "target"@]);
        },
        KindModel::Delete { .. } => {
            assert(f.dom() =~= set!["target"@]);
        },
        KindModel::Profile { .. } => {
            assert(f.dom() =~= set!["bio"@, "avatar_cid"@, "display_name"@]);
        },
        KindModel::Follow { .. } => {
            assert(f.dom() =~= set!["added"@, "removed"@]);
        },
        KindModel::Reply { .. } => {
            assert(f.dom() =~= set!["text"@, "target"@]);
        },
    }
}

/// An event's payload is written as a map with these five entries and no other.
pub proof fn payload_is_written_whole(p: PayloadModel)
    ensures
        payload_tree(p) matches Tree::Fields(m) && {
            &&& m.dom() == set!["seq"@, "kind"@, "prev"@, "author"@, "timestamp"@]
            &&& m["seq"@] == Tree::Int(p.seq as int)
            &&& m["kind"@] == kind_tree(p.kind)
            &&& m["prev"@] == match p.prev {
                Some(c) => Tree::Link(c),
                None => Tree::Null,
            }
            &&& m["author"@] == Tree::Bytes(p.author)
            &&& m["timestamp"@] == Tree::Int(p.timestamp as int)
        },
{
    envelope_keys_differ();
    let m = payload_tree(p)->Fields_0;
    assert(m.dom() =~= set!["seq"@, "kind"@, "prev"@, "author"@, "timestamp"@]);
}

/// The block of an event is the encoding of its payload and its signature, and its CID that of
/// the block: version 1, DAG-CBOR, SHA2-256.
pub proof fn block_holds_payload_and_signature(e: EnvelopeModel)
    ensures
        envelope_tree(e) matches Tree::Fields(m) && m.dom() == set!["payload"@, "signature"@]
            && m["payload"@] == payload_tree(e.payload) && m["signature"@] == Tree::Bytes(
            e.signature,
        ),
        envelope_block(e) == dag_cbor_bytes(envelope_tree(e)),
        event_cid(e) == seq![1u8, 0x71u8, 0x12u8, 0x20u8] + sha2_256(envelope_block(e)),
{
    envelope_keys_differ();
    let m = envelope_tree(e)->Fields_0;
    assert(m.dom() =~= set!["payload"@, "signature"@]);
}

/// An event fits a place in a chain if and only if it has the author and the position and has a
/// predecessor unless it is the first; the author is looked at first, then the position.
pub proof fn link_fits_author_position_and_predecessor(e: EnvelopeModel, author: Seq<u8>, seq: u64)
    ensures
        chain_link_error(e, author, seq) is None <==> e.payload.author == author && e.payload.seq
            == seq && (seq == 0 <==> e.payload.prev is None),
        chain_link_error(e, author, seq) == Some(ChainError::WrongAuthor) <==> e.payload.author
            != author,
        e.payload.author == author && e.payload.seq != seq ==> chain_link_error(e, author, seq)
            == Some(ChainError::WrongSeq { expected: seq, got: e.payload.seq }),
{
}

/// An event counts as signed if and only if its author's key is a key and the signature over
/// its payload verifies under it.
pub proof fn signed_event_verifies(e: EnvelopeModel)
    ensures
        envelope_signed(e) <==> ed25519_key_valid(e.payload.author) && ed25519_verifies(
            e.payload.author,
            dag_cbor_bytes(payload_tree(e.payload)),
            e.signature,
        ),
{
}

/// Reading a payload looks at five entries and at nothing else: the position, the kind, the
/// predecessor, which may be missing or null, the author of 32 bytes, and the time. It gives
/// exactly what they hold.
pub proof fn payload_is_read_from_its_entries(tree: Tree, p: PayloadModel)
    ensures
        payload_of_tree(tree) == Some(p) <==> (tree matches Tree::Fields(m) && {
            &&& m.dom().contains("seq"@) && m["seq"@] == Tree::Int(p.seq as int)
            &&& m.dom().contains("kind"@) && kind_of_tree(m["kind"@]) == Some(p.kind)
            &&& match p.prev {
                Some(c) => m.dom().contains("prev"@) && m["prev"@] == Tree::Link(c),
                None => !m.dom().contains("prev"@) || m["prev"@] == Tree::Null,
            }
            &&& m.dom().contains("author"@) && m["author"@] == Tree::Bytes(p.author)
                && p.author.len() == 32
            &&& m.dom().contains("timestamp"@) && m["timestamp"@] == Tree::Int(p.timestamp as int)
        }),
{
}

/// Reading an event looks at its payload and its signature of 64 bytes, and at nothing else.
pub proof fn event_is_read_from_its_entries(tree: Tree, e: EnvelopeModel)
    ensures
        envelope_of_tree(tree) == Some(e) <==> (tree matches Tree::Fields(m) && {
            &&& m.dom().contains("payload"@) && payload_of_tree(m["payload"@]) == Some(e.payload)
            &&& m.dom().contains("signature"@) && m["signature"@] == Tree::Bytes(e.signature)
                && e.signature.len() == 64
        }),
{
}

/// A block holds an event if and only if the codec reads it as a value that is one.
pub proof fn block_holds_what_the_codec_reads(block: Seq<u8>, e: EnvelopeModel)
    ensures
        envelope_of_block(block) == Ok::<EnvelopeModel, Seq<char>>(e) <==> (dag_cbor_parse(
            block,
        ) matches Ok(tree) && envelope_of_tree(tree) == Some(e)),
{
}

/// Whether a value is the list of the given keys.
pub open spec fn lists_keys(tree: Tree, keys: Seq<Seq<u8>>) -> bool {
    tree matches Tree::List(items) && items.len() == keys.len() && forall|i: int|
        0 <= i < keys.len() ==> #[trigger] items[i] == Tree::Bytes(keys[i]) && keys[i].len() == 32
}

proof fn keys_are_read_from_a_list(field: Option<Tree>, keys: Seq<Seq<u8>>)
    ensures
        tree_keys(field) == Some(keys) <==> (field matches Some(tree) && lists_keys(tree, keys)),
{
    match field {
        Some(Tree::List(items)) => {
            if tree_keys(field) == Some(keys) {
                assert forall|i: int| 0 <= i < keys.len() implies #[trigger] items[i]
                    == Tree::Bytes(keys[i]) && keys[i].len() == 32 by {
                    assert(tree_bytes(Some(items[i]), 32) is Some);
                    assert(keys[i] == items[i]->Bytes_0);
                }
            }
            if lists_keys(Tree::List(items), keys) {
                assert forall|i: int| 0 <= i < items.len() implies tree_bytes(
                    Some(#[trigger] items[i]),
                    32,
                ) is Some by {
                    assert(items[i] == Tree::Bytes(keys[i]));
                }
                assert(items.map_values(|t: Tree| t->Bytes_0) =~= keys);
            }
        },
        _ => {},
    }
}

/// Whether a map has one entry, under the given name, and that holds a map with the given
/// fields.
pub open spec fn names_kind(tree: Tree, name: Seq<char>, fields: Map<Seq<char>, Tree>) -> bool {
    tree matches Tree::Fields(m) && m.dom().finite() && m.dom().len() == 1 && m.dom().contains(name)
        && m[name] == Tree::Fields(fields)
}

/// Reading a kind gives exactly what stands under its name: the whole text, the target, the
/// keys. Entries that the kind does not have are passed over.
pub proof fn kind_is_read_from_its_entries(
    tree: Tree,
    name: Seq<char>,
    f: Map<Seq<char>, Tree>,
    kind: KindModel,
)
    requires
        names_kind(tree, name, f),
    ensures
        name == "Post"@ ==> (kind_of_tree(tree) == Some(kind) <==> (kind matches KindModel::Post {
            text,
        } && f.dom().contains("text"@) && f["text"@] == Tree::Text(text))),
        name == "Edit"@ ==> (kind_of_tree(tree) == Some(kind) <==> (kind matches KindModel::Edit {
            text,
            target,
        } && f.dom().contains("text"@) && f["text"@] == Tree::Text(text) && f.dom().contains(
            "target"@,
        ) && f["target"@] == Tree::Link(target))),
        name == "Delete"@ ==> (kind_of_tree(tree) == Some(kind) <==> (kind matches
            KindModel::Delete { target } && f.dom().contains("target"@) && f["target"@]
            == Tree::Link(target))),
        name == "Profile"@ ==> (kind_of_tree(tree) == Some(kind) <==> (kind matches
            KindModel::Profile { bio, avatar_cid, display_name } && f.dom().contains("bio"@)
            && f["bio"@] == Tree::Text(bio) && f.dom().contains("display_name"@)
            && f["display_name"@] == Tree::Text(display_name) && match avatar_cid {
            Some(c) => f.dom().contains("avatar_cid"@) && f["avatar_cid"@] == Tree::Link(c),
            None => !f.dom().contains("avatar_cid"@) || f["avatar_cid"@] == Tree::Null,
        })),
        name == "Follow"@ ==> (kind_of_tree(tree) == Some(kind) <==> (kind matches
            KindModel::Follow { added, removed } && f.dom().contains("added"@) && lists_keys(
            f["added"@],
            added,
        ) && f.dom().contains("removed"@) && lists_keys(f["removed"@], removed))),
        name == "Reply"@ ==> (kind_of_tree(tree) == Some(kind) <==> (kind matches KindModel::Reply {
            text,
            target,
        } && f.dom().contains("text"@) && f["text"@] == Tree::Text(text) && f.dom().contains(
            "target"@,
        ) && f["target"@] == Tree::Link(target))),
        name != "Post"@ && name != "Edit"@ && name != "Delete"@ && name != "Profile"@ && name
            != "Follow"@ && name != "Reply"@ ==> kind_of_tree(tree) is None,
{
    kind_names_differ();
    let m = tree->Fields_0;
    assert forall|other: Seq<char>| other != name implies !#[trigger] m.dom().contains(other) by {
        if m.dom().contains(other) {
            assert(m.dom().remove(name).contains(other));
            assert(m.dom().remove(name).len() == 0);
        }
    }
    if let KindModel::Follow { added, removed } = kind {
        keys_are_read_from_a_list(tree_field(Tree::Fields(f), "added"@), added);
        keys_are_read_from_a_list(tree_field(Tree::Fields(f), "removed"@), removed);
    }
    if name == "Follow"@ {
        if let Some(KindModel::Follow { added, removed }) = kind_of_tree(tree) {
            keys_are_read_from_a_list(tree_field(Tree::Fields(f), "added"@), added);
            keys_are_read_from_a_list(tree_field(Tree::Fields(f), "removed"@), removed);
        }
    }
}

/// A list of keys is written with every key, in order.
pub proof fn keys_are_written_whole(keys: Seq<Seq<u8>>)
    ensures
        keys_tree(keys) matches Tree::List(items) && items.len() == keys.len() && forall|i: int|
            0 <= i < keys.len() ==> #[trigger] items[i] == Tree::Bytes(keys[i]),
{
}

/// A kind is named as it is written.
pub proof fn kind_is_named_as_written(kind: KindModel)
    ensures
        kind_tree(kind) matches Tree::Fields(m) && m.dom() == set![kind_name(kind)],
{
    kind_is_written_whole(kind);
}

/// What is said of an event is said of all that it holds.
pub proof fn event_is_seen_whole(e: EventEnvelope)
    ensures
        e@.signature == e.signature@,
        e@.payload.seq == e.payload.seq,
        e@.payload.prev is Some <==> e.payload.prev is Some,
        e.payload.prev matches Some(c) ==> e@.payload.prev == Some(c@),
        e@.payload.author == e.payload.author@,
        e@.payload.timestamp == e.payload.timestamp,
        match e.payload.kind {
            EventKind::Post { text } => e@.payload.kind == (KindModel::Post { text: text@ }),
            EventKind::Edit { text, target } => e@.payload.kind == (KindModel::Edit {
                text: text@,
                target: target@,
            }),
            EventKind::Delete { target } => e@.payload.kind == (KindModel::Delete {
                target: target@,
            }),
            EventKind::Profile { bio, avatar_cid, display_name } => e@.payload.kind matches
                KindModel::Profile { bio: b, avatar_cid: a, display_name: d } && b == bio@ && d
                == display_name@ && (a is Some <==> avatar_cid is Some) && (avatar_cid matches Some(
                c,
            ) ==> a == Some(c@)),
            EventKind::Follow { added, removed } => e@.payload.kind matches KindModel::Follow {
                added: a,
                removed: r,
            } && a.len() == added@.len() && r.len() == removed@.len() && (forall|i: int|
                0 <= i < added@.len() ==> #[trigger] a[i] == added@[i]@) && (forall|i: int|
                0 <= i < removed@.len() ==> #[trigger] r[i] == removed@[i]@),
            EventKind::Reply { text, target } => e@.payload.kind == (KindModel::Reply {
                text: text@,
                target: target@,
            }),
        },
{
}

} // verus!
