//! Content identifiers.
//!
//! A [`Cid`] is held as its binary form. The hash and the text forms come from the
//! `multihash-codetable` and `cid` crates.

use multihash_codetable::MultihashDigest;
use vstd::prelude::*;

verus! {

/// Multicodec code of DAG-CBOR.
pub const DAG_CBOR_CODEC: u8 = 0x71;

/// The SHA2-256 digest of a byte string.
pub uninterp spec fn sha2_256(bytes: Seq<u8>) -> Seq<u8>;

/// The binary form of the CID at the front of `bytes`, if there is one.
pub uninterp spec fn cid_read(bytes: Seq<u8>) -> Option<Seq<u8>>;

/// The text form of the CID whose binary form is `bytes`.
pub uninterp spec fn cid_text(bytes: Seq<u8>) -> Seq<char>;

/// The binary form of the CID that `text` denotes, if it denotes one.
pub uninterp spec fn cid_parse(text: Seq<char>) -> Option<Seq<u8>>;

/// Whether `bytes` is the binary form of a CID: reading it gives it back whole.
pub open spec fn is_cid(bytes: Seq<u8>) -> bool {
    cid_read(bytes) == Some(bytes)
}

/// Binary form of a version 1 CID over a SHA2-256 digest, for a one-byte codec.
pub open spec fn cid_v1_bytes(codec: u8, digest: Seq<u8>) -> Seq<u8> {
    seq![1u8, codec, 0x12u8, 0x20u8] + digest
}

/// The content identifier of a DAG-CBOR block.
pub open spec fn block_cid(block: Seq<u8>) -> Seq<u8> {
    cid_v1_bytes(DAG_CBOR_CODEC, sha2_256(block))
}

/// `MultihashDigest::digest` of `multihash_codetable::Code::Sha2_256`: a 32-byte digest
/// that is a function of the bytes alone.
#[verifier::external_body]
fn sha2_256_digest(bytes: &[u8]) -> (digest: Vec<u8>)
    ensures
        digest@ == sha2_256(bytes@),
        digest@.len() == 32,
{
    multihash_codetable::Code::Sha2_256.digest(bytes).digest().to_vec()
}

/// `cid::Cid::new_v1` over a wrapped SHA2-256 multihash, as bytes: version 1, the codec and
/// the multihash code and length, each in one byte, and then the digest. Reading those bytes
/// gives the same CID.
#[verifier::external_body]
fn new_v1_bytes(codec: u8, digest: &[u8]) -> (bytes: Vec<u8>)
    requires
        codec < 0x80,
        digest@.len() == 32,
    ensures
        bytes@ == cid_v1_bytes(codec, digest@),
        is_cid(bytes@),
{
    let hash = cid::multihash::Multihash::<64>::wrap(0x12, digest).expect("digest of 32 bytes");
    cid::Cid::new_v1(u64::from(codec), hash).to_bytes()
}

/// `cid::Cid::try_from` a byte slice, as the bytes of the CID that was read; what stands
/// behind the CID is ignored. The bytes of a CID read back as that CID.
#[verifier::external_body]
fn read_cid_bytes(bytes: &[u8]) -> (res: Option<Vec<u8>>)
    ensures
        match res {
            Some(b) => cid_read(bytes@) == Some(b@) && is_cid(b@),
            None => cid_read(bytes@) is None,
        },
{
    match cid::Cid::try_from(bytes) {
        Ok(c) => Some(c.to_bytes()),
        Err(_) => None,
    }
}

/// `Display` of `cid::Cid`: the text is a function of the CID and parses back to it.
#[verifier::external_body]
fn cid_bytes_to_text(bytes: &[u8]) -> (text: String)
    requires
        is_cid(bytes@),
    ensures
        text@ == cid_text(bytes@),
        cid_parse(text@) == Some(bytes@),
{
    cid::Cid::try_from(bytes).expect("bytes of a CID").to_string()
}

/// `cid::Cid::try_from` a string, as the bytes of the CID.
#[verifier::external_body]
fn parse_cid_text(text: &str) -> (res: Option<Vec<u8>>)
    ensures
        match res {
            Some(b) => cid_parse(text@) == Some(b@) && is_cid(b@),
            None => cid_parse(text@) is None,
        },
{
    match cid::Cid::try_from(text) {
        Ok(c) => Some(c.to_bytes()),
        Err(_) => None,
    }
}

/// A content identifier. Its view is its binary form.
#[derive(Debug, PartialEq, Eq, Hash)]
pub struct Cid {
    bytes: Vec<u8>,
}

impl View for Cid {
    type V = Seq<u8>;

    closed spec fn view(&self) -> Seq<u8> {
        self.bytes@
    }
}

impl Clone for Cid {
    fn clone(&self) -> (res: Self)
        ensures
            res@ == self@,
    {
        proof {
            use_type_invariant(self);
        }
        Cid { bytes: self.bytes.clone() }
    }
}

impl Cid {
    #[verifier::type_invariant]
    closed spec fn wf(self) -> bool {
        is_cid(self.bytes@)
    }

    /// The CID at the front of `bytes`.
    pub fn from_bytes(bytes: &[u8]) -> (res: Option<Cid>)
        ensures
            match res {
                Some(c) => cid_read(bytes@) == Some(c@),
                None => cid_read(bytes@) is None,
            },
    {
        match read_cid_bytes(bytes) {
            Some(b) => Some(Cid { bytes: b }),
            None => None,
        }
    }

    /// The CID that `text` denotes.
    pub fn parse(text: &str) -> (res: Option<Cid>)
        ensures
            match res {
                Some(c) => cid_parse(text@) == Some(c@),
                None => cid_parse(text@) is None,
            },
    {
        match parse_cid_text(text) {
            Some(b) => Some(Cid { bytes: b }),
            None => None,
        }
    }

    /// The binary form.
    pub fn to_bytes(&self) -> (res: Vec<u8>)
        ensures
            res@ == self@,
            is_cid(res@),
    {
        proof {
            use_type_invariant(self);
        }
        self.bytes.clone()
    }

    /// The text form, which parses back to this CID.
    pub fn to_string(&self) -> (res: String)
        ensures
            res@ == cid_text(self@),
            cid_parse(res@) == Some(self@),
    {
        proof {
            use_type_invariant(self);
        }
        cid_bytes_to_text(self.bytes.as_slice())
    }

    /// Whether two CIDs are the same.
    pub fn same(&self, other: &Cid) -> (res: bool)
        ensures
            res == (self@ == other@),
    {
        bytes_eq(self.bytes.as_slice(), other.bytes.as_slice())
    }
}

/// Whether two byte strings are equal.
pub fn bytes_eq(a: &[u8], b: &[u8]) -> (res: bool)
    ensures
        res == (a@ == b@),
{
    if a.len() != b.len() {
        return false;
    }
    let mut i: usize = 0;
    while i < a.len()
        invariant
            i <= a@.len(),
            a@.len() == b@.len(),
            forall|j: int| 0 <= j < i ==> a@[j] == b@[j],
        decreases a@.len() - i,
    {
        if a[i] != b[i] {
            return false;
        }
        i += 1;
    }
    assert(a@ =~= b@);
    true
}

/// A copy of a byte string.
pub fn copy_bytes(bytes: &[u8]) -> (res: Vec<u8>)
    ensures
        res@ == bytes@,
{
    let mut res: Vec<u8> = Vec::new();
    res.extend_from_slice(bytes);
    assert(res@ =~= bytes@);
    res
}

/// The content identifier of a DAG-CBOR block: version 1, over the SHA2-256 digest.
pub fn bytes_to_cid(bytes: &[u8]) -> (res: Cid)
    ensures
        res@ == block_cid(bytes@),
{
    let digest = sha2_256_digest(bytes);
    Cid { bytes: new_v1_bytes(DAG_CBOR_CODEC, digest.as_slice()) }
}

} // verus!
