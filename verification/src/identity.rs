//! Ed25519 identities.

use crate::cid::Cid;
use crate::dag_cbor::{cid_option, dag_cbor_bytes};
use crate::event::{
    envelope_signed, payload_block, payload_to_dag_cbor, payload_tree, EnvelopeModel, EventEnvelope, EventKind,
    EventPayload, KindModel, PayloadModel, VerifyError,
};
use crate::util::{now_ms, random_bytes};
use ed25519_dalek::{Signer, Verifier};
use vstd::prelude::*;

verus! {

/// The public key of the key pair that grows from a seed.
pub uninterp spec fn ed25519_public(seed: Seq<u8>) -> Seq<u8>;

/// The signature over a message by the key pair that grows from a seed.
pub uninterp spec fn ed25519_signature(seed: Seq<u8>, msg: Seq<u8>) -> Seq<u8>;

/// Whether 32 bytes are a public key.
pub uninterp spec fn ed25519_key_valid(key: Seq<u8>) -> bool;

/// Whether a signature over a message verifies under a public key.
pub uninterp spec fn ed25519_verifies(key: Seq<u8>, msg: Seq<u8>, sig: Seq<u8>) -> bool;

/// `SigningKey::from_bytes` and `SigningKey::verifying_key`, as bytes: the public key of a
/// seed, which is a valid one.
#[verifier::external_body]
fn public_key_of_seed(seed: &[u8; 32]) -> (key: [u8; 32])
    ensures
        key@ == ed25519_public(seed@),
        ed25519_key_valid(key@),
{
    ed25519_dalek::SigningKey::from_bytes(seed).verifying_key().to_bytes()
}

/// `Signer::sign` of `SigningKey`: a deterministic signature, which verifies under the public
/// key of the same seed.
#[verifier::external_body]
fn sign_with_seed(seed: &[u8; 32], msg: &[u8]) -> (sig: [u8; 64])
    ensures
        sig@ == ed25519_signature(seed@, msg@),
        ed25519_verifies(ed25519_public(seed@), msg@, sig@),
{
    ed25519_dalek::SigningKey::from_bytes(seed).sign(msg).to_bytes()
}

/// `VerifyingKey::from_bytes`: whether it accepts the bytes.
#[verifier::external_body]
fn is_public_key(key: &[u8; 32]) -> (res: bool)
    ensures
        res == ed25519_key_valid(key@),
{
    ed25519_dalek::VerifyingKey::from_bytes(key).is_ok()
}

/// `Verifier::verify` of `VerifyingKey`: whether the signature is good.
#[verifier::external_body]
fn signature_verifies(key: &[u8; 32], msg: &[u8], sig: &[u8; 64]) -> (res: bool)
    requires
        ed25519_key_valid(key@),
    ensures
        res == ed25519_verifies(key@, msg@, sig@),
{
    let key = ed25519_dalek::VerifyingKey::from_bytes(key).expect("valid public key");
    key.verify(msg, &ed25519_dalek::Signature::from_bytes(sig)).is_ok()
}

/// Checks an Ed25519 signature over raw bytes.
pub fn verify_signature(pubkey_bytes: &[u8; 32], msg: &[u8], sig_bytes: &[u8; 64]) -> (res: Result<
    (),
    VerifyError,
>)
    ensures
        res is Ok <==> ed25519_key_valid(pubkey_bytes@) && ed25519_verifies(
            pubkey_bytes@,
            msg@,
            sig_bytes@,
        ),
        res == Err::<(), VerifyError>(VerifyError::InvalidAuthorKey) <==> !ed25519_key_valid(
            pubkey_bytes@,
        ),
{
    if !is_public_key(pubkey_bytes) {
        return Err(VerifyError::InvalidAuthorKey);
    }
    if signature_verifies(pubkey_bytes, msg, sig_bytes) {
        Ok(())
    } else {
        Err(VerifyError::InvalidSignature)
    }
}

// ---------------------------------------------------------------------------
// Identities
// ---------------------------------------------------------------------------

/// Why there is no new identity.
#[derive(Debug, Clone, Copy, PartialEq, Eq, Structural)]
pub enum IdentityError {
    /// The operating system gave no random bytes.
    RngUnavailable,
}

/// A key pair, held as the seed that it grows from.
pub struct Identity {
    seed: [u8; 32],
}

impl Identity {
    /// The seed.
    pub closed spec fn seed(&self) -> Seq<u8> {
        self.seed@
    }

    /// The public key, which names the account.
    pub open spec fn public_key(&self) -> Seq<u8> {
        ed25519_public(self.seed())
    }

    /// A new identity from a random seed.
    pub fn generate() -> (res: Result<Self, IdentityError>)
        ensures
            res matches Ok(id) ==> id.seed().len() == 32,
    {
        Identity::from_random(random_bytes::<32>())
    }

    /// The identity that grows from what the source of randomness gave, if it gave anything.
    pub fn from_random(bytes: Option<[u8; 32]>) -> (res: Result<Self, IdentityError>)
        ensures
            match res {
                Ok(id) => bytes matches Some(seed) && id.seed() == seed@,
                Err(e) => bytes is None && e == IdentityError::RngUnavailable,
            },
    {
        match bytes {
            Some(seed) => Ok(Identity::from_seed(&seed)),
            None => Err(IdentityError::RngUnavailable),
        }
    }

    /// The identity that grows from a seed.
    pub fn from_seed(seed: &[u8; 32]) -> (res: Self)
        ensures
            res.seed() == seed@,
    {
        Identity { seed: *seed }
    }

    /// The seed, for safekeeping.
    pub fn seed_bytes(&self) -> (res: [u8; 32])
        ensures
            res@ == self.seed(),
    {
        self.seed
    }

    /// The public key.
    pub fn public_key_bytes(&self) -> (res: [u8; 32])
        ensures
            res@ == self.public_key(),
            ed25519_key_valid(res@),
    {
        public_key_of_seed(&self.seed)
    }

    /// Signs a byte string. The signature verifies under the public key.
    pub fn sign_bytes(&self, msg: &[u8]) -> (res: [u8; 64])
        ensures
            res@ == ed25519_signature(self.seed(), msg@),
            ed25519_verifies(self.public_key(), msg@, res@),
    {
        sign_with_seed(&self.seed, msg)
    }
}

/// The event that the key pair of `seed` signs.
pub open spec fn signed_envelope(
    seed: Seq<u8>,
    seq: u64,
    prev: Option<Seq<u8>>,
    kind: KindModel,
    timestamp: i64,
) -> EnvelopeModel {
    let payload = PayloadModel { seq, kind, prev, author: ed25519_public(seed), timestamp };
    EnvelopeModel { payload, signature: ed25519_signature(seed, payload_block(payload)) }
}

/// Signs an event with a given timestamp.
pub fn create_envelope_at(
    identity: &Identity,
    seq: u64,
    prev: Option<Cid>,
    kind: EventKind,
    timestamp: i64,
) -> (res: EventEnvelope)
    ensures
        res@ == signed_envelope(identity.seed(), seq, cid_option(prev), kind@, timestamp),
        envelope_signed(res@),
{
    let payload = EventPayload {
        seq,
        kind,
        prev,
        author: identity.public_key_bytes(),
        timestamp,
    };
    let block = payload_to_dag_cbor(&payload);
    let signature = identity.sign_bytes(block.as_slice());
    EventEnvelope { payload, signature }
}

/// Signs an event with the current time; `None` when the clock shows none.
pub fn create_envelope(
    identity: &Identity,
    seq: u64,
    prev: Option<Cid>,
    kind: EventKind,
) -> (res: Option<EventEnvelope>)
    ensures
        res matches Some(e) ==> e@ == signed_envelope(
            identity.seed(),
            seq,
            cid_option(prev),
            kind@,
            e@.payload.timestamp,
        ) && 0 <= e@.payload.timestamp && envelope_signed(e@),
{
    create_envelope_when(identity, seq, prev, kind, now_ms())
}

/// Signs an event with the time that the clock shows, if it shows one.
pub fn create_envelope_when(
    identity: &Identity,
    seq: u64,
    prev: Option<Cid>,
    kind: EventKind,
    now: Option<i64>,
) -> (res: Option<EventEnvelope>)
    ensures
        match res {
            Some(e) => (now matches Some(t) && e@ == signed_envelope(
                identity.seed(),
                seq,
                cid_option(prev),
                kind@,
                t,
            )) && envelope_signed(e@),
            None => now is None,
        },
{
    match now {
        Some(t) => Some(create_envelope_at(identity, seq, prev, kind, t)),
        None => None,
    }
}

/// A signed event holds what it was made of, and the signature of its key pair over that.
pub proof fn signed_event_holds_its_parts(
    seed: Seq<u8>,
    seq: u64,
    prev: Option<Seq<u8>>,
    kind: KindModel,
    timestamp: i64,
)
    ensures
        ({
            let e = signed_envelope(seed, seq, prev, kind, timestamp);
            &&& e.payload.seq == seq
            &&& e.payload.prev == prev
            &&& e.payload.kind == kind
            &&& e.payload.author == ed25519_public(seed)
            &&& e.payload.timestamp == timestamp
            &&& e.signature == ed25519_signature(seed, dag_cbor_bytes(payload_tree(e.payload)))
        }),
{
}

} // verus!
