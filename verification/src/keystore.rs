//! The keystore: an identity's seed under a passphrase.
//!
//! A blob is the salt, the nonce and the sealed seed, one behind the other. Reading and
//! writing the file is the caller's part.

use crate::dag_cbor::to_array;
use crate::identity::Identity;
use crate::util::random_bytes;
use aes_gcm::aead::Aead;
use aes_gcm::KeyInit;
use vstd::prelude::*;
use vstd::string::*;
use vstd::utf8::encode_utf8;

verus! {

/// The name of the keystore's file.
pub const KEYSTORE_FILE: &'static str = "keystore.bin";

/// The length of the salt.
pub const SALT_LEN: usize = 16;

/// The length of the nonce.
pub const NONCE_LEN: usize = 12;

/// The length of the shortest blob: salt, nonce, and 32 sealed bytes with their tag.
pub const MIN_BLOB_LEN: usize = 76;

/// The key that Argon2 with its default parameters derives from a password and a salt.
pub uninterp spec fn argon2_key(password: Seq<u8>, salt: Seq<u8>) -> Seq<u8>;

/// AES-256-GCM: the sealed form of a plaintext.
pub uninterp spec fn aes_gcm_sealed(key: Seq<u8>, nonce: Seq<u8>, plaintext: Seq<u8>) -> Seq<u8>;

/// AES-256-GCM: the plaintext of a sealed form, if the key is the right one.
pub uninterp spec fn aes_gcm_opened(key: Seq<u8>, nonce: Seq<u8>, sealed: Seq<u8>) -> Option<
    Seq<u8>,
>;

/// `Argon2::hash_password_into` with the default parameters and room for 32 bytes: a function
/// of the password and the salt. With a salt of 16 bytes it fails only on a password of more
/// than 4294967295 bytes.
#[verifier::external_body]
fn argon2_derive(password: &[u8], salt: &[u8; 16]) -> (res: Option<[u8; 32]>)
    ensures
        match res {
            Some(key) => key@ == argon2_key(password@, salt@) && password@.len() <= 0xffff_ffff,
            None => password@.len() > 0xffff_ffff,
        },
{
    let mut key = [0u8; 32];
    match argon2::Argon2::default().hash_password_into(password, salt, &mut key) {
        Ok(()) => Some(key),
        Err(_) => None,
    }
}

/// `Aead::encrypt` of `Aes256Gcm` without associated data: the sealed form is 16 bytes longer
/// than the plaintext and opens to it. It fails only on a plaintext of more than 2^36 bytes.
#[verifier::external_body]
fn aes_gcm_encrypt(key: &[u8; 32], nonce: &[u8; 12], plaintext: &[u8]) -> (res: Option<Vec<u8>>)
    ensures
        match res {
            Some(sealed) => sealed@ == aes_gcm_sealed(key@, nonce@, plaintext@) && sealed@.len()
                == plaintext@.len() + 16 && aes_gcm_opened(key@, nonce@, sealed@) == Some(
                plaintext@,
            ),
            None => plaintext@.len() > 0x10_0000_0000,
        },
{
    let cipher = aes_gcm::Aes256Gcm::new(aes_gcm::Key::<aes_gcm::Aes256Gcm>::from_slice(key));
    match cipher.encrypt(aes_gcm::Nonce::from_slice(nonce), plaintext) {
        Ok(sealed) => Some(sealed),
        Err(_) => None,
    }
}

/// `Aead::decrypt` of `Aes256Gcm` without associated data: the plaintext, which is 16 bytes
/// shorter than the sealed form, or nothing if the tag does not fit.
#[verifier::external_body]
fn aes_gcm_decrypt(key: &[u8; 32], nonce: &[u8; 12], sealed: &[u8]) -> (res: Option<Vec<u8>>)
    ensures
        match res {
            Some(plaintext) => aes_gcm_opened(key@, nonce@, sealed@) == Some(plaintext@)
                && plaintext@.len() + 16 == sealed@.len(),
            None => aes_gcm_opened(key@, nonce@, sealed@) is None,
        },
{
    let cipher = aes_gcm::Aes256Gcm::new(aes_gcm::Key::<aes_gcm::Aes256Gcm>::from_slice(key));
    match cipher.decrypt(aes_gcm::Nonce::from_slice(nonce), sealed) {
        Ok(plaintext) => Some(plaintext),
        Err(_) => None,
    }
}

/// Why a keystore could not be made or opened.
#[derive(Debug, PartialEq, Eq)]
pub enum KeystoreError {
    /// The file could not be read or written; given by those who do so.
    Io(String),
    KeyDerivation,
    WrongPassphrase,
    InvalidFormat,
    /// The operating system gave no random bytes.
    RngUnavailable,
}

impl KeystoreError {
    /// The message of the error.
    pub open spec fn message(&self) -> Seq<char> {
        match *self {
            KeystoreError::Io(text) => "IO error: "@ + text@,
            KeystoreError::KeyDerivation => "key derivation failed"@,
            KeystoreError::WrongPassphrase => "wrong passphrase"@,
            KeystoreError::InvalidFormat => "invalid keystore format"@,
            KeystoreError::RngUnavailable => "OS RNG unavailable"@,
        }
    }

    /// The message of the error.
    pub fn to_string(&self) -> (res: String)
        ensures
            res@ == self.message(),
    {
        match self {
            KeystoreError::Io(text) => {
                let s = "IO error: ".to_owned();
                s.concat(text.as_str())
            },
            KeystoreError::KeyDerivation => "key derivation failed".to_owned(),
            KeystoreError::WrongPassphrase => "wrong passphrase".to_owned(),
            KeystoreError::InvalidFormat => "invalid keystore format".to_owned(),
            KeystoreError::RngUnavailable => "OS RNG unavailable".to_owned(),
        }
    }
}

/// Why a blob does not open.
pub enum BlobFault {
    KeyDerivation,
    WrongPassphrase,
    InvalidFormat,
}

/// The error for a fault.
pub open spec fn blob_error(fault: BlobFault) -> KeystoreError {
    match fault {
        BlobFault::KeyDerivation => KeystoreError::KeyDerivation,
        BlobFault::WrongPassphrase => KeystoreError::WrongPassphrase,
        BlobFault::InvalidFormat => KeystoreError::InvalidFormat,
    }
}

/// Whether a key can be derived from a passphrase.
pub open spec fn passphrase_fits(passphrase: Seq<char>) -> bool {
    encode_utf8(passphrase).len() <= 0xffff_ffff
}

/// The blob of a seed.
pub open spec fn blob_of(
    passphrase: Seq<char>,
    seed: Seq<u8>,
    salt: Seq<u8>,
    nonce: Seq<u8>,
) -> Seq<u8> {
    salt + nonce + aes_gcm_sealed(argon2_key(encode_utf8(passphrase), salt), nonce, seed)
}

/// The seed in a blob.
pub open spec fn seed_in_blob(passphrase: Seq<char>, blob: Seq<u8>) -> Result<Seq<u8>, BlobFault> {
    if blob.len() < 76 {
        Err(BlobFault::InvalidFormat)
    } else if !passphrase_fits(passphrase) {
        Err(BlobFault::KeyDerivation)
    } else {
        let key = argon2_key(encode_utf8(passphrase), blob.subrange(0, 16));
        match aes_gcm_opened(key, blob.subrange(16, 28), blob.skip(28)) {
            None => Err(BlobFault::WrongPassphrase),
            Some(seed) => if seed.len() == 32 {
                Ok(seed)
            } else {
                Err(BlobFault::InvalidFormat)
            },
        }
    }
}

/// A keystore opens again: its passphrase brings back the seed that was sealed, given that the
/// cipher opens what it sealed.
pub proof fn keystore_opens_again(
    passphrase: Seq<char>,
    seed: Seq<u8>,
    salt: Seq<u8>,
    nonce: Seq<u8>,
)
    requires
        passphrase_fits(passphrase),
        seed.len() == 32,
        salt.len() == 16,
        nonce.len() == 12,
        ({
            let key = argon2_key(encode_utf8(passphrase), salt);
            let sealed = aes_gcm_sealed(key, nonce, seed);
            sealed.len() == 48 && aes_gcm_opened(key, nonce, sealed) == Some(seed)
        }),
    ensures
        seed_in_blob(passphrase, blob_of(passphrase, seed, salt, nonce)) == Ok::<
            Seq<u8>,
            BlobFault,
        >(seed),
{
    let blob = blob_of(passphrase, seed, salt, nonce);
    let sealed = aes_gcm_sealed(argon2_key(encode_utf8(passphrase), salt), nonce, seed);
    assert(blob.subrange(0, 16) =~= salt);
    assert(blob.subrange(16, 28) =~= nonce);
    assert(blob.skip(28) =~= sealed);
}

/// A passphrase whose key the cipher refuses is a wrong passphrase: it gives no seed.
pub proof fn refused_passphrase_is_wrong(
    passphrase: Seq<char>,
    seed: Seq<u8>,
    salt: Seq<u8>,
    nonce: Seq<u8>,
    other: Seq<char>,
)
    requires
        passphrase_fits(other),
        salt.len() == 16,
        nonce.len() == 12,
        ({
            let sealed = aes_gcm_sealed(argon2_key(encode_utf8(passphrase), salt), nonce, seed);
            sealed.len() == 48 && aes_gcm_opened(
                argon2_key(encode_utf8(other), salt),
                nonce,
                sealed,
            ) is None
        }),
    ensures
        seed_in_blob(other, blob_of(passphrase, seed, salt, nonce)) == Err::<Seq<u8>, BlobFault>(
            BlobFault::WrongPassphrase,
        ),
{
    let blob = blob_of(passphrase, seed, salt, nonce);
    let sealed = aes_gcm_sealed(argon2_key(encode_utf8(passphrase), salt), nonce, seed);
    assert(blob.subrange(0, 16) =~= salt);
    assert(blob.subrange(16, 28) =~= nonce);
    assert(blob.skip(28) =~= sealed);
}

/// A keystore that was cut short is refused, whatever the passphrase.
pub proof fn cut_keystore_is_refused(passphrase: Seq<char>, blob: Seq<u8>, n: int)
    requires
        0 <= n <= blob.len(),
        n < 76,
    ensures
        seed_in_blob(passphrase, blob.take(n)) == Err::<Seq<u8>, BlobFault>(
            BlobFault::InvalidFormat,
        ),
{
}

/// What opens a keystore: it holds sixteen bytes of salt, twelve of nonce and the sealed seed,
/// and the key derived from the passphrase and the salt opens that to thirty-two bytes.
pub proof fn keystore_is_salt_nonce_and_sealed_seed(
    passphrase: Seq<char>,
    blob: Seq<u8>,
    seed: Seq<u8>,
)
    ensures
        seed_in_blob(passphrase, blob) == Ok::<Seq<u8>, BlobFault>(seed) <==> {
            &&& blob.len() >= 76
            &&& encode_utf8(passphrase).len() <= 0xffff_ffff
            &&& aes_gcm_opened(
                argon2_key(encode_utf8(passphrase), blob.take(16)),
                blob.subrange(16, 28),
                blob.skip(28),
            ) == Some(seed)
            &&& seed.len() == 32
        },
{
    if blob.len() >= 76 {
        assert(blob.take(16) =~= blob.subrange(0, 16));
    }
}

fn derive_key(passphrase: &str, salt: &[u8; 16]) -> (res: Result<[u8; 32], KeystoreError>)
    ensures
        match res {
            Ok(key) => passphrase_fits(passphrase@) && key@ == argon2_key(
                encode_utf8(passphrase@),
                salt@,
            ),
            Err(e) => !passphrase_fits(passphrase@) && e == KeystoreError::KeyDerivation,
        },
{
    match argon2_derive(passphrase.as_bytes(), salt) {
        Some(key) => Ok(key),
        None => Err(KeystoreError::KeyDerivation),
    }
}

/// Seals a seed under a passphrase. The blob opens to the seed.
pub fn seal_seed(
    passphrase: &str,
    seed: &[u8; 32],
    salt: &[u8; 16],
    nonce: &[u8; 12],
) -> (res: Result<Vec<u8>, KeystoreError>)
    ensures
        match res {
            Ok(blob) => {
                &&& passphrase_fits(passphrase@)
                &&& blob@ == blob_of(passphrase@, seed@, salt@, nonce@)
                &&& blob@.len() == 76
                &&& seed_in_blob(passphrase@, blob@) matches Ok(s) && s == seed@
            },
            Err(e) => !passphrase_fits(passphrase@) && e == KeystoreError::KeyDerivation,
        },
{
    let key = match derive_key(passphrase, salt) {
        Ok(key) => key,
        Err(e) => return Err(e),
    };
    let sealed = match aes_gcm_encrypt(&key, nonce, seed.as_slice()) {
        Some(sealed) => sealed,
        None => return Err(KeystoreError::KeyDerivation),
    };
    let mut blob: Vec<u8> = Vec::new();
    blob.extend_from_slice(salt.as_slice());
    blob.extend_from_slice(nonce.as_slice());
    blob.extend_from_slice(sealed.as_slice());
    proof {
        assert(blob@ =~= blob_of(passphrase@, seed@, salt@, nonce@));
        keystore_opens_again(passphrase@, seed@, salt@, nonce@);
    }
    Ok(blob)
}

/// Opens a blob with a passphrase.
pub fn open_seed(passphrase: &str, blob: &[u8]) -> (res: Result<[u8; 32], KeystoreError>)
    ensures
        match res {
            Ok(seed) => seed_in_blob(passphrase@, blob@) matches Ok(s) && s == seed@,
            Err(e) => seed_in_blob(passphrase@, blob@) matches Err(f) && e == blob_error(f),
        },
{
    if blob.len() < MIN_BLOB_LEN {
        return Err(KeystoreError::InvalidFormat);
    }
    let mut salt: [u8; 16] = [0u8; 16];
    let mut i: usize = 0;
    while i < 16
        invariant
            i <= 16,
            blob@.len() >= 76,
            forall|j: int| 0 <= j < i ==> #[trigger] salt@[j] == blob@[j],
        decreases 16 - i,
    {
        salt[i] = blob[i];
        i += 1;
    }
    let mut nonce: [u8; 12] = [0u8; 12];
    let mut k: usize = 0;
    while k < 12
        invariant
            k <= 12,
            blob@.len() >= 76,
            forall|j: int| 0 <= j < k ==> #[trigger] nonce@[j] == blob@[16 + j],
        decreases 12 - k,
    {
        nonce[k] = blob[16 + k];
        k += 1;
    }
    let mut sealed: Vec<u8> = Vec::new();
    let mut n: usize = 28;
    while n < blob.len()
        invariant
            28 <= n <= blob@.len(),
            sealed@ =~= blob@.subrange(28, n as int),
        decreases blob@.len() - n,
    {
        sealed.push(blob[n]);
        n += 1;
    }
    proof {
        assert(salt@ =~= blob@.subrange(0, 16));
        assert(nonce@ =~= blob@.subrange(16, 28));
        assert(sealed@ =~= blob@.skip(28));
    }
    let key = match derive_key(passphrase, &salt) {
        Ok(key) => key,
        Err(e) => return Err(e),
    };
    match aes_gcm_decrypt(&key, &nonce, sealed.as_slice()) {
        Some(plaintext) => match to_array::<32>(plaintext.as_slice()) {
            Some(seed) => Ok(seed),
            None => Err(KeystoreError::InvalidFormat),
        },
        None => Err(KeystoreError::WrongPassphrase),
    }
}

/// An identity that was taken from a keystore.
pub struct Keystore {
    identity: Identity,
}

impl Keystore {
    /// The seed of the identity.
    pub closed spec fn seed(&self) -> Seq<u8> {
        self.identity.seed()
    }

    /// Makes a new identity from random bytes, and the blob that holds it under the
    /// passphrase. The blob opens to the same identity.
    pub fn create(passphrase: &str) -> (res: Result<(Self, [u8; 32], Vec<u8>), KeystoreError>)
        ensures
            match res {
                Ok((keystore, pubkey, blob)) => {
                    &&& passphrase_fits(passphrase@)
                    &&& blob@.len() == 76
                    &&& exists|salt: Seq<u8>, nonce: Seq<u8>|
                        salt.len() == 16 && nonce.len() == 12 && blob@ == #[trigger] blob_of(
                            passphrase@,
                            keystore.seed(),
                            salt,
                            nonce,
                        )
                    &&& seed_in_blob(passphrase@, blob@) matches Ok(s) && s == keystore.seed()
                    &&& pubkey@ == crate::identity::ed25519_public(keystore.seed())
                },
                Err(e) => e == KeystoreError::RngUnavailable || (e == KeystoreError::KeyDerivation
                    && !passphrase_fits(passphrase@)),
            },
    {
        match (random_bytes::<32>(), random_bytes::<16>(), random_bytes::<12>()) {
            (Some(seed), Some(salt), Some(nonce)) => Keystore::create_from(
                passphrase,
                &seed,
                &salt,
                &nonce,
            ),
            _ => Err(KeystoreError::RngUnavailable),
        }
    }

    /// Makes the identity of a seed, and the blob that holds it under the passphrase.
    pub fn create_from(
        passphrase: &str,
        seed: &[u8; 32],
        salt: &[u8; 16],
        nonce: &[u8; 12],
    ) -> (res: Result<(Self, [u8; 32], Vec<u8>), KeystoreError>)
        ensures
            match res {
                Ok((keystore, pubkey, blob)) => {
                    &&& passphrase_fits(passphrase@)
                    &&& keystore.seed() == seed@
                    &&& pubkey@ == crate::identity::ed25519_public(seed@)
                    &&& blob@ == blob_of(passphrase@, seed@, salt@, nonce@)
                    &&& blob@.len() == 76
                    &&& seed_in_blob(passphrase@, blob@) matches Ok(s) && s == seed@
                },
                Err(e) => e == KeystoreError::KeyDerivation && !passphrase_fits(passphrase@),
            },
    {
        let blob = match seal_seed(passphrase, seed, salt, nonce) {
            Ok(blob) => blob,
            Err(e) => return Err(e),
        };
        let identity = Identity::from_seed(seed);
        let pubkey = identity.public_key_bytes();
        Ok((Keystore { identity }, pubkey, blob))
    }

    /// Opens a blob with its passphrase.
    pub fn load(passphrase: &str, blob: &[u8]) -> (res: Result<Self, KeystoreError>)
        ensures
            match res {
                Ok(keystore) => seed_in_blob(passphrase@, blob@) matches Ok(s) && s
                    == keystore.seed(),
                Err(e) => seed_in_blob(passphrase@, blob@) matches Err(f) && e == blob_error(f),
            },
    {
        match open_seed(passphrase, blob) {
            Ok(seed) => Ok(Keystore { identity: Identity::from_seed(&seed) }),
            Err(e) => Err(e),
        }
    }

    /// The identity.
    pub fn identity(&self) -> (res: &Identity)
        ensures
            res.seed() == self.seed(),
    {
        &self.identity
    }

    /// The identity.
    pub fn into_identity(self) -> (res: Identity)
        ensures
            res.seed() == self.seed(),
    {
        self.identity
    }
}

} // verus!
