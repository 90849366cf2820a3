//! DAG-CBOR values.
//!
//! The codec is `serde_ipld_dagcbor` over the `Ipld` value type of `ipld-core`. This module
//! names what an `Ipld` value holds as a [`Tree`] and gives the pieces from which the domain
//! types are written to and read from such values.

use crate::cid::{is_cid, Cid};
use ipld_core::ipld::Ipld;
use vstd::prelude::*;

verus! {

/// `Ipld` of `ipld-core`: a value of the IPLD data model.
#[verifier::external_type_specification]
#[verifier::external_body]
pub struct ExIpld(Ipld);

/// What an IPLD value holds, as far as this library reads it.
pub enum Tree {
    Null,
    Int(int),
    Text(Seq<char>),
    Bytes(Seq<u8>),
    List(Seq<Tree>),
    Fields(Map<Seq<char>, Tree>),
    Link(Seq<u8>),
    /// A boolean or a floating-point number.
    Other,
}

/// The contents of an `Ipld` value.
pub uninterp spec fn ipld_tree(value: Ipld) -> Tree;

/// The contents of a list of `Ipld` values.
pub open spec fn ipld_trees(values: Seq<Ipld>) -> Seq<Tree> {
    values.map_values(|v: Ipld| ipld_tree(v))
}

/// The canonical DAG-CBOR encoding of a value.
pub uninterp spec fn dag_cbor_bytes(tree: Tree) -> Seq<u8>;

/// The value that a byte string encodes, or the codec's description of why it encodes none.
pub uninterp spec fn dag_cbor_parse(bytes: Seq<u8>) -> Result<Tree, Seq<char>>;

/// Whether `bytes` reads as `tree`.
pub open spec fn encodes(bytes: Seq<u8>, tree: Tree) -> bool {
    dag_cbor_parse(bytes) matches Ok(t) && t == tree
}

/// Whether a value is a map with `n` entries.
pub open spec fn has_field_count(tree: Tree, n: nat) -> bool {
    tree matches Tree::Fields(m) && m.dom().finite() && m.dom().len() == n
}

/// The nesting that [`encode`] admits.
pub const MAX_DEPTH: u64 = 8;

/// Whether a value has an encoding: integers in the range of DAG-CBOR, real CIDs, nothing
/// that this library cannot name, and at most `depth` levels of lists and maps.
pub open spec fn encodable(tree: Tree, depth: nat) -> bool
    decreases depth,
{
    match tree {
        Tree::Null | Tree::Text(_) | Tree::Bytes(_) => true,
        Tree::Int(v) => -0x1_0000_0000_0000_0000 <= v <= 0xffff_ffff_ffff_ffff,
        Tree::Link(b) => is_cid(b),
        Tree::List(items) => depth > 0 && forall|i: int|
            0 <= i < items.len() ==> encodable(#[trigger] items[i], (depth - 1) as nat),
        Tree::Fields(m) => depth > 0 && forall|k: Seq<char>| #[trigger]
            m.dom().contains(k) ==> encodable(m[k], (depth - 1) as nat),
        Tree::Other => false,
    }
}

/// A value with few levels fits where more are admitted.
pub proof fn encodable_deeper(tree: Tree, depth: nat, more: nat)
    requires
        encodable(tree, depth),
        depth <= more,
    ensures
        encodable(tree, more),
    decreases depth,
{
    match tree {
        Tree::List(items) => {
            assert forall|i: int| 0 <= i < items.len() implies encodable(
                #[trigger] items[i],
                (more - 1) as nat,
            ) by {
                encodable_deeper(items[i], (depth - 1) as nat, (more - 1) as nat);
            }
        },
        Tree::Fields(m) => {
            assert forall|k: Seq<char>| #[trigger] m.dom().contains(k) implies encodable(
                m[k],
                (more - 1) as nat,
            ) by {
                encodable_deeper(m[k], (depth - 1) as nat, (more - 1) as nat);
            }
        },
        _ => {},
    }
}

/// `Ipld::Null`.
#[verifier::external_body]
pub(crate) fn ipld_null() -> (res: Ipld)
    ensures
        ipld_tree(res) == Tree::Null,
{
    Ipld::Null
}

/// `Ipld::from` an `i128`.
#[verifier::external_body]
pub(crate) fn ipld_int(v: i128) -> (res: Ipld)
    ensures
        ipld_tree(res) == Tree::Int(v as int),
{
    Ipld::from(v)
}

/// `Ipld::from` a string slice.
#[verifier::external_body]
pub(crate) fn ipld_text(text: &str) -> (res: Ipld)
    ensures
        ipld_tree(res) == Tree::Text(text@),
{
    Ipld::from(text)
}

/// `Ipld::from` a byte slice.
#[verifier::external_body]
pub(crate) fn ipld_bytes(bytes: &[u8]) -> (res: Ipld)
    ensures
        ipld_tree(res) == Tree::Bytes(bytes@),
{
    Ipld::from(bytes)
}

/// `Ipld::from` a `cid::Cid`, taken as its bytes: a link to that CID.
#[verifier::external_body]
fn ipld_link_bytes(bytes: &[u8]) -> (res: Ipld)
    requires
        is_cid(bytes@),
    ensures
        ipld_tree(res) == Tree::Link(bytes@),
{
    Ipld::from(cid::Cid::try_from(bytes).expect("bytes of a CID"))
}

/// `Ipld::from` a vector of values: the list of them, in order.
#[verifier::external_body]
pub(crate) fn ipld_list(items: Vec<Ipld>) -> (res: Ipld)
    ensures
        ipld_tree(res) == Tree::List(ipld_trees(items@)),
{
    Ipld::from(items)
}

/// `Ipld::from` an empty `BTreeMap`: a map without entries.
#[verifier::external_body]
pub(crate) fn ipld_empty_map() -> (res: Ipld)
    ensures
        ipld_tree(res) == Tree::Fields(Map::<Seq<char>, Tree>::empty()),
{
    Ipld::from(std::collections::BTreeMap::<String, Ipld>::new())
}

/// `BTreeMap::insert` on the entries of an `Ipld::Map`: afterwards the map has `value` under
/// `key` and is otherwise unchanged.
#[verifier::external_body]
pub(crate) fn ipld_with_field(map: Ipld, key: &str, value: Ipld) -> (res: Ipld)
    requires
        ipld_tree(map) is Fields,
    ensures
        ipld_tree(res) == Tree::Fields(ipld_tree(map)->Fields_0.insert(key@, ipld_tree(value))),
{
    match map {
        Ipld::Map(mut entries) => {
            entries.insert(key.to_string(), value);
            Ipld::Map(entries)
        },
        other => other,
    }
}

/// `Ipld::get` with a string key on a map: a copy of the entry under that key.
#[verifier::external_body]
pub(crate) fn ipld_field(map: &Ipld, key: &str) -> (res: Option<Ipld>)
    requires
        ipld_tree(*map) is Fields,
    ensures
        match res {
            Some(v) => tree_field(ipld_tree(*map), key@) == Some(ipld_tree(v)),
            None => tree_field(ipld_tree(*map), key@) is None,
        },
{
    match map.get(key) {
        Ok(found) => found.cloned(),
        Err(_) => None,
    }
}

/// `BTreeMap::len` of the entries of an `Ipld::Map`: how many keys the map has.
#[verifier::external_body]
pub(crate) fn ipld_field_count(map: &Ipld) -> (n: usize)
    requires
        ipld_tree(*map) is Fields,
    ensures
        has_field_count(ipld_tree(*map), n as nat),
{
    match map {
        Ipld::Map(entries) => entries.len(),
        _ => 0,
    }
}

/// One level of an IPLD value.
pub enum Shape {
    Null,
    Int(i128),
    Text(String),
    Bytes(Vec<u8>),
    List(Vec<Ipld>),
    Fields(Ipld),
    Link(Vec<u8>),
    Other,
}

/// What one level of an IPLD value says of the whole.
pub open spec fn shape_tree(shape: Shape) -> Tree {
    match shape {
        Shape::Null => Tree::Null,
        Shape::Int(v) => Tree::Int(v as int),
        Shape::Text(s) => Tree::Text(s@),
        Shape::Bytes(b) => Tree::Bytes(b@),
        Shape::List(items) => Tree::List(ipld_trees(items@)),
        Shape::Fields(v) => ipld_tree(v),
        Shape::Link(b) => Tree::Link(b@),
        Shape::Other => Tree::Other,
    }
}

/// The variants of `Ipld`, told apart: the parts of the value, and for a link the bytes of
/// its CID.
#[verifier::external_body]
pub(crate) fn ipld_shape(value: Ipld) -> (shape: Shape)
    ensures
        shape_tree(shape) == ipld_tree(value),
        shape is Fields <==> ipld_tree(value) is Fields,
        shape matches Shape::Link(b) ==> is_cid(b@),
{
    match value {
        Ipld::Null => Shape::Null,
        Ipld::Bool(_) => Shape::Other,
        Ipld::Integer(v) => Shape::Int(v),
        Ipld::Float(_) => Shape::Other,
        Ipld::String(s) => Shape::Text(s),
        Ipld::Bytes(b) => Shape::Bytes(b),
        Ipld::List(items) => Shape::List(items),
        Ipld::Map(entries) => Shape::Fields(Ipld::Map(entries)),
        Ipld::Link(c) => Shape::Link(c.to_bytes()),
    }
}

/// `serde_ipld_dagcbor::to_vec` of an `Ipld` value: the canonical encoding, which reads back
/// as the same value. Only a failed allocation makes it fail on an encodable value.
#[verifier::external_body]
pub(crate) fn encode(value: &Ipld) -> (bytes: Vec<u8>)
    requires
        encodable(ipld_tree(*value), MAX_DEPTH as nat),
    ensures
        bytes@ == dag_cbor_bytes(ipld_tree(*value)),
        encodes(bytes@, ipld_tree(*value)),
{
    serde_ipld_dagcbor::to_vec(value).expect("DAG-CBOR serialization failed")
}

/// `serde_ipld_dagcbor::from_slice` into an `Ipld` value, the error as its text. The codec also
/// reads maps whose keys are out of order and lengths that are not in shortest form; which of
/// these bytes it takes is left to the name.
#[verifier::external_body]
pub(crate) fn decode(bytes: &[u8]) -> (res: Result<Ipld, String>)
    ensures
        match res {
            Ok(v) => encodes(bytes@, ipld_tree(v)),
            Err(e) => dag_cbor_parse(bytes@) matches Err(m) && m == e@,
        },
{
    match serde_ipld_dagcbor::from_slice::<Ipld>(bytes) {
        Ok(v) => Ok(v),
        Err(e) => Err(e.to_string()),
    }
}

// ---------------------------------------------------------------------------
// Reading one field
// ---------------------------------------------------------------------------

/// The entry of a map under `key`; a value that is no map has no entries.
pub open spec fn tree_field(tree: Tree, key: Seq<char>) -> Option<Tree> {
    match tree {
        Tree::Fields(m) => if m.dom().contains(key) {
            Some(m[key])
        } else {
            None
        },
        _ => None,
    }
}

/// A field that holds an unsigned 64-bit integer.
pub open spec fn tree_u64(field: Option<Tree>) -> Option<u64> {
    match field {
        Some(Tree::Int(v)) => if 0 <= v <= u64::MAX {
            Some(v as u64)
        } else {
            None
        },
        _ => None,
    }
}

/// A field that holds a signed 64-bit integer.
pub open spec fn tree_i64(field: Option<Tree>) -> Option<i64> {
    match field {
        Some(Tree::Int(v)) => if i64::MIN <= v <= i64::MAX {
            Some(v as i64)
        } else {
            None
        },
        _ => None,
    }
}

/// A field that holds text.
pub open spec fn tree_text(field: Option<Tree>) -> Option<Seq<char>> {
    match field {
        Some(Tree::Text(s)) => Some(s),
        _ => None,
    }
}

/// A field that holds exactly `n` bytes.
pub open spec fn tree_bytes(field: Option<Tree>, n: nat) -> Option<Seq<u8>> {
    match field {
        Some(Tree::Bytes(b)) => if b.len() == n {
            Some(b)
        } else {
            None
        },
        _ => None,
    }
}

/// A field that holds a link.
pub open spec fn tree_link(field: Option<Tree>) -> Option<Seq<u8>> {
    match field {
        Some(Tree::Link(b)) => Some(b),
        _ => None,
    }
}

/// A field that may be missing or null, and otherwise holds a link.
pub open spec fn tree_optional_link(field: Option<Tree>) -> Option<Option<Seq<u8>>> {
    match field {
        None => Some(None),
        Some(Tree::Null) => Some(None),
        Some(Tree::Link(b)) => Some(Some(b)),
        _ => None,
    }
}

/// Whether a value is a list of byte strings of 32 bytes.
pub open spec fn is_key_list(items: Seq<Tree>) -> bool {
    forall|i: int| 0 <= i < items.len() ==> tree_bytes(Some(#[trigger] items[i]), 32) is Some
}

/// A field that holds a list of byte strings of 32 bytes.
pub open spec fn tree_keys(field: Option<Tree>) -> Option<Seq<Seq<u8>>> {
    match field {
        Some(Tree::List(items)) => if is_key_list(items) {
            Some(items.map_values(|t: Tree| t->Bytes_0))
        } else {
            None
        },
        _ => None,
    }
}

/// The view of an optional CID.
pub open spec fn cid_option(c: Option<Cid>) -> Option<Seq<u8>> {
    match c {
        Some(c) => Some(c@),
        None => None,
    }
}

/// The views of a list of keys.
pub open spec fn key_views(keys: Seq<[u8; 32]>) -> Seq<Seq<u8>> {
    keys.map_values(|k: [u8; 32]| k@)
}

pub(crate) fn read_u64(map: &Ipld, key: &str) -> (res: Option<u64>)
    requires
        ipld_tree(*map) is Fields,
    ensures
        res == tree_u64(tree_field(ipld_tree(*map), key@)),
{
    match ipld_field(map, key) {
        Some(v) => match ipld_shape(v) {
            Shape::Int(n) => if 0 <= n && n <= u64::MAX as i128 {
                Some(n as u64)
            } else {
                None
            },
            _ => None,
        },
        None => None,
    }
}

pub(crate) fn read_i64(map: &Ipld, key: &str) -> (res: Option<i64>)
    requires
        ipld_tree(*map) is Fields,
    ensures
        res == tree_i64(tree_field(ipld_tree(*map), key@)),
{
    match ipld_field(map, key) {
        Some(v) => match ipld_shape(v) {
            Shape::Int(n) => if i64::MIN as i128 <= n && n <= i64::MAX as i128 {
                Some(n as i64)
            } else {
                None
            },
            _ => None,
        },
        None => None,
    }
}

pub(crate) fn read_text(map: &Ipld, key: &str) -> (res: Option<String>)
    requires
        ipld_tree(*map) is Fields,
    ensures
        match res {
            Some(s) => tree_text(tree_field(ipld_tree(*map), key@)) == Some(s@),
            None => tree_text(tree_field(ipld_tree(*map), key@)) is None,
        },
{
    match ipld_field(map, key) {
        Some(v) => match ipld_shape(v) {
            Shape::Text(s) => Some(s),
            _ => None,
        },
        None => None,
    }
}

/// The bytes of a slice of the right length as an array.
pub fn to_array<const N: usize>(bytes: &[u8]) -> (res: Option<[u8; N]>)
    ensures
        match res {
            Some(a) => bytes@.len() == N && a@ == bytes@,
            None => bytes@.len() != N,
        },
{
    if bytes.len() != N {
        return None;
    }
    let mut out: [u8; N] = [0u8; N];
    let mut i: usize = 0;
    while i < N
        invariant
            i <= N,
            bytes@.len() == N,
            forall|j: int| 0 <= j < i ==> #[trigger] out@[j] == bytes@[j],
        decreases N - i,
    {
        out[i] = bytes[i];
        i += 1;
    }
    assert(out@ =~= bytes@);
    Some(out)
}

pub(crate) fn read_bytes<const N: usize>(map: &Ipld, key: &str) -> (res: Option<[u8; N]>)
    requires
        ipld_tree(*map) is Fields,
    ensures
        match res {
            Some(a) => tree_bytes(tree_field(ipld_tree(*map), key@), N as nat) == Some(a@),
            None => tree_bytes(tree_field(ipld_tree(*map), key@), N as nat) is None,
        },
{
    match ipld_field(map, key) {
        Some(v) => match ipld_shape(v) {
            Shape::Bytes(b) => to_array::<N>(b.as_slice()),
            _ => None,
        },
        None => None,
    }
}

pub(crate) fn read_link(map: &Ipld, key: &str) -> (res: Option<Cid>)
    requires
        ipld_tree(*map) is Fields,
    ensures
        match res {
            Some(c) => tree_link(tree_field(ipld_tree(*map), key@)) == Some(c@),
            None => tree_link(tree_field(ipld_tree(*map), key@)) is None,
        },
{
    match ipld_field(map, key) {
        Some(v) => match ipld_shape(v) {
            Shape::Link(b) => Cid::from_bytes(b.as_slice()),
            _ => None,
        },
        None => None,
    }
}

pub(crate) fn read_optional_link(map: &Ipld, key: &str) -> (res: Option<Option<Cid>>)
    requires
        ipld_tree(*map) is Fields,
    ensures
        match res {
            Some(c) => tree_optional_link(tree_field(ipld_tree(*map), key@)) == Some(
                cid_option(c),
            ),
            None => tree_optional_link(tree_field(ipld_tree(*map), key@)) is None,
        },
{
    match ipld_field(map, key) {
        Some(v) => match ipld_shape(v) {
            Shape::Null => Some(None),
            Shape::Link(b) => Some(Cid::from_bytes(b.as_slice())),
            _ => None,
        },
        None => Some(None),
    }
}

pub(crate) fn read_keys(map: &Ipld, key: &str) -> (res: Option<Vec<[u8; 32]>>)
    requires
        ipld_tree(*map) is Fields,
    ensures
        match res {
            Some(keys) => tree_keys(tree_field(ipld_tree(*map), key@)) == Some(key_views(keys@)),
            None => tree_keys(tree_field(ipld_tree(*map), key@)) is None,
        },
{
    let items: Vec<Ipld> = match ipld_field(map, key) {
        Some(v) => match ipld_shape(v) {
            Shape::List(items) => items,
            _ => return None,
        },
        None => return None,
    };
    let ghost all = ipld_trees(items@);
    let mut rest = items;
    let mut keys: Vec<[u8; 32]> = Vec::new();
    let n: usize = rest.len();
    let mut i: usize = 0;
    while i < n
        invariant
            i <= n == all.len(),
            tree_field(ipld_tree(*map), key@) == Some(Tree::List(all)),
            rest@.len() == n - i,
            forall|j: int| i <= j < n ==> #[trigger] all[j] == ipld_tree(rest@[j - i]),
            keys@.len() == i,
            forall|j: int|
                0 <= j < i ==> tree_bytes(Some(#[trigger] all[j]), 32) == Some(keys@[j]@),
        decreases n - i,
    {
        let item = rest.remove(0);
        assert(all[i as int] == ipld_tree(item));
        match ipld_shape(item) {
            Shape::Bytes(b) => match to_array::<32>(b.as_slice()) {
                Some(k) => keys.push(k),
                None => {
                    assert(tree_bytes(Some(all[i as int]), 32) is None);
                    return None;
                },
            },
            _ => {
                assert(tree_bytes(Some(all[i as int]), 32) is None);
                return None;
            },
        }
        i += 1;
    }
    proof {
        assert(is_key_list(all));
        assert forall|j: int| 0 <= j < n implies all[j]->Bytes_0 == keys@[j]@ by {
            assert(tree_bytes(Some(all[j]), 32) == Some(keys@[j]@));
        }
        assert(all.map_values(|t: Tree| t->Bytes_0) =~= key_views(keys@));
    }
    Some(keys)
}

// ---------------------------------------------------------------------------
// Writing one field
// ---------------------------------------------------------------------------

/// The value that stands for an optional CID.
pub open spec fn optional_link_tree(c: Option<Seq<u8>>) -> Tree {
    match c {
        Some(b) => Tree::Link(b),
        None => Tree::Null,
    }
}

/// The value that stands for a list of keys.
pub open spec fn keys_tree(keys: Seq<Seq<u8>>) -> Tree {
    Tree::List(keys.map_values(|k: Seq<u8>| Tree::Bytes(k)))
}

pub(crate) fn write_link(c: &Cid) -> (res: Ipld)
    ensures
        ipld_tree(res) == Tree::Link(c@),
        is_cid(c@),
{
    let bytes = c.to_bytes();
    ipld_link_bytes(bytes.as_slice())
}

pub(crate) fn write_optional_link(c: &Option<Cid>) -> (res: Ipld)
    ensures
        ipld_tree(res) == optional_link_tree(cid_option(*c)),
        c matches Some(b) ==> is_cid(b@),
{
    match c {
        Some(b) => write_link(b),
        None => ipld_null(),
    }
}

pub(crate) fn write_keys(keys: &Vec<[u8; 32]>) -> (res: Ipld)
    ensures
        ipld_tree(res) == keys_tree(key_views(keys@)),
{
    let mut items: Vec<Ipld> = Vec::new();
    let mut i: usize = 0;
    while i < keys.len()
        invariant
            i <= keys@.len(),
            items@.len() == i,
            forall|j: int|
                0 <= j < i ==> ipld_tree(#[trigger] items@[j]) == Tree::Bytes(keys@[j]@),
        decreases keys@.len() - i,
    {
        items.push(ipld_bytes(keys[i].as_slice()));
        i += 1;
    }
    proof {
        assert(ipld_trees(items@) =~= key_views(keys@).map_values(|k: Seq<u8>| Tree::Bytes(k)));
    }
    ipld_list(items)
}

/// A list of keys written as a value is read back.
pub proof fn keys_tree_roundtrip(keys: Seq<Seq<u8>>)
    requires
        forall|i: int| 0 <= i < keys.len() ==> (#[trigger] keys[i]).len() == 32,
    ensures
        tree_keys(Some(keys_tree(keys))) == Some(keys),
        encodable(keys_tree(keys), 1),
{
    let items = keys.map_values(|k: Seq<u8>| Tree::Bytes(k));
    assert(forall|i: int| 0 <= i < items.len() ==> #[trigger] items[i] == Tree::Bytes(keys[i]));
    assert(is_key_list(items));
    assert(items.map_values(|t: Tree| t->Bytes_0) =~= keys);
    assert forall|i: int| 0 <= i < items.len() implies encodable(#[trigger] items[i], 0) by {}
}

} // verus!
