use deilephila::identity::{verify_signature, Identity};
use deilephila::keystore::{open_seed, seal_seed, Keystore, KeystoreError, KEYSTORE_FILE};

#[test]
fn create_and_load_roundtrip() {
    let (ks, pubkey, blob) = Keystore::create("correct_passphrase").unwrap();
    let original_pubkey = ks.identity().public_key_bytes();
    assert_eq!(pubkey, original_pubkey);

    let loaded = Keystore::load("correct_passphrase", &blob).unwrap();
    assert_eq!(loaded.identity().public_key_bytes(), original_pubkey);
}

#[test]
fn wrong_passphrase_returns_error() {
    let (_, _, blob) = Keystore::create("correct").unwrap();
    let result = Keystore::load("wrong", &blob);
    assert!(matches!(result, Err(KeystoreError::WrongPassphrase)));
}

#[test]
fn identity_sign_verify_after_load() {
    let (ks, _, blob) = Keystore::create("mypassphrase").unwrap();
    let msg = b"hello deilephila";
    let sig = ks.identity().sign_bytes(msg);

    let loaded = Keystore::load("mypassphrase", &blob).unwrap();
    let pubkey = loaded.identity().public_key_bytes();
    assert!(verify_signature(&pubkey, msg, &sig).is_ok());
}

#[test]
fn blob_layout() {
    let (ks, pubkey, blob) =
        Keystore::create_from("pass", &[7u8; 32], &[1u8; 16], &[2u8; 12]).unwrap();
    // Salt, nonce, the sealed seed, and the tag.
    assert_eq!(blob.len(), 16 + 12 + 32 + 16);
    assert_eq!(&blob[..16], &[1u8; 16]);
    assert_eq!(&blob[16..28], &[2u8; 12]);
    assert_ne!(&blob[28..60], &[7u8; 32]);
    assert_eq!(pubkey, Identity::from_seed(&[7u8; 32]).public_key_bytes());
    assert_eq!(ks.into_identity().seed_bytes(), [7u8; 32]);
    assert_eq!(open_seed("pass", &blob), Ok([7u8; 32]));
    assert_eq!(KEYSTORE_FILE, "keystore.bin");
}

#[test]
fn sealing_is_a_function_of_its_inputs() {
    let a = seal_seed("pass", &[7u8; 32], &[1u8; 16], &[2u8; 12]).unwrap();
    let b = seal_seed("pass", &[7u8; 32], &[1u8; 16], &[2u8; 12]).unwrap();
    let c = seal_seed("pass", &[7u8; 32], &[3u8; 16], &[2u8; 12]).unwrap();
    assert_eq!(a, b);
    assert_ne!(a[28..], c[28..]);
    assert!(matches!(
        open_seed("Pass", &a),
        Err(KeystoreError::WrongPassphrase)
    ));
}

#[test]
fn short_and_broken_blobs_are_refused() {
    let (_, _, blob) = Keystore::create("pass").unwrap();
    assert!(matches!(
        Keystore::load("pass", &blob[..75]),
        Err(KeystoreError::InvalidFormat)
    ));
    assert!(matches!(
        Keystore::load("pass", b""),
        Err(KeystoreError::InvalidFormat)
    ));
    let mut bent = blob.clone();
    bent[40] ^= 1;
    assert!(matches!(
        Keystore::load("pass", &bent),
        Err(KeystoreError::WrongPassphrase)
    ));
}

#[test]
fn keystore_errors_have_messages() {
    assert_eq!(
        KeystoreError::Io("gone".to_string()).to_string(),
        "IO error: gone"
    );
    assert_eq!(
        KeystoreError::KeyDerivation.to_string(),
        "key derivation failed"
    );
    assert_eq!(
        KeystoreError::WrongPassphrase.to_string(),
        "wrong passphrase"
    );
    assert_eq!(
        KeystoreError::InvalidFormat.to_string(),
        "invalid keystore format"
    );
    assert_eq!(
        KeystoreError::RngUnavailable.to_string(),
        "OS RNG unavailable"
    );
}
