//! Trusted adapters around the cryptographic primitives of outside crates.
//!
//! Every item here either names what an outside function returns (an
//! uninterpreted spec function) or wraps a single primitive call in an
//! `external_body` function whose contract states what the primitive's
//! documentation promises. Nothing else in the crate is taken on trust.

use vstd::prelude::*;

use aes_gcm::aead::Aead;
use aes_gcm::KeyInit;
use ed25519_dalek::Signer;

verus! {

/// The SHA-256 digest of a byte sequence.
pub uninterp spec fn sha256_of(data: Seq<u8>) -> Seq<u8>;

/// Relies on sha2's `Sha256::digest`: the digest is 32 bytes and depends on
/// the input bytes alone.
#[verifier::external_body]
pub fn sha256(data: &[u8]) -> (r: [u8; 32])
    ensures
        r@ == sha256_of(data@),
        r@.len() == 32,
{
    <sha2::Sha256 as sha2::Digest>::digest(data).into()
}

/// The 32-byte HKDF-SHA256 output for the given keying material and info
/// label (extract with an empty salt, then expand).
pub uninterp spec fn hkdf_of(ikm: Seq<u8>, info: Seq<u8>) -> Seq<u8>;

/// Relies on hkdf's `Hkdf::<Sha256>::new` and `Hkdf::expand`: the output is a
/// deterministic function of the keying material and the info label. The
/// 32-byte output length is far below the 255-blocks limit, so `expand`
/// cannot fail.
#[verifier::external_body]
pub fn hkdf_expand32(ikm: &[u8], info: &[u8]) -> (r: [u8; 32])
    ensures
        r@ == hkdf_of(ikm@, info@),
        r@.len() == 32,
{
    let hk = hkdf::Hkdf::<sha2::Sha256>::new(None, ikm);
    let mut out = [0u8; 32];
    hk.expand(info, &mut out).unwrap();
    out
}

/// The URL-safe base64 encoding (with padding) of a byte sequence.
pub uninterp spec fn b64_of(data: Seq<u8>) -> Seq<char>;

/// What base64's URL-safe decoder returns for a string: the decoded bytes,
/// or nothing when the input is not valid base64.
pub uninterp spec fn b64_dec_of(text: Seq<char>) -> Option<Seq<u8>>;

/// Relies on base64's `encode_config` with `URL_SAFE`: the encoding depends
/// on the input bytes alone, and decoding an encoding returns the original
/// bytes (the codec round-trips, as the crate documents).
#[verifier::external_body]
pub fn b64_encode(data: &[u8]) -> (r: String)
    ensures
        r@ == b64_of(data@),
        b64_dec_of(r@) == Some(data@),
{
    base64::encode_config(data, base64::URL_SAFE)
}

/// Relies on base64's `decode_config` with `URL_SAFE`: the result depends on
/// the input string alone; invalid input is reported as an error.
#[verifier::external_body]
pub fn b64_decode(text: &str) -> (r: Option<Vec<u8>>)
    ensures
        match r {
            Some(v) => b64_dec_of(text@) == Some(v@),
            None => b64_dec_of(text@) is None,
        },
{
    base64::decode_config(text, base64::URL_SAFE).ok()
}

/// Relies on rand's `OsRng::fill_bytes`. Nothing can be promised of random
/// bytes.
#[verifier::external_body]
pub fn random_bytes32() -> [u8; 32] {
    let mut bytes = [0u8; 32];
    rand::RngCore::fill_bytes(&mut rand::rngs::OsRng, &mut bytes);
    bytes
}

/// Relies on rand's `OsRng::fill_bytes`. Nothing can be promised of random
/// bytes.
#[verifier::external_body]
pub fn random_bytes12() -> [u8; 12] {
    let mut bytes = [0u8; 12];
    rand::RngCore::fill_bytes(&mut rand::rngs::OsRng, &mut bytes);
    bytes
}

/// The Ed25519 public key belonging to a 32-byte secret key.
pub uninterp spec fn ed_pk_of(sk: Seq<u8>) -> Seq<u8>;

/// The Ed25519 signature of a message under a secret key. Ed25519 signing is
/// deterministic (RFC 8032), so the signature is a function of the key and
/// the message alone.
pub uninterp spec fn ed_sig_of(sk: Seq<u8>, msg: Seq<u8>) -> Seq<u8>;

/// Whether Ed25519 verification accepts a signature for a public key and a
/// message. Verification is deterministic in its three inputs.
pub uninterp spec fn ed_valid(pk: Seq<u8>, msg: Seq<u8>, sig: Seq<u8>) -> bool;

/// Relies on ed25519-dalek's `SigningKey::from_bytes` and
/// `VerifyingKey::to_bytes`: the public key is derived from the secret key
/// alone.
#[verifier::external_body]
pub fn ed25519_public_key(sk: &[u8; 32]) -> (r: [u8; 32])
    ensures
        r@ == ed_pk_of(sk@),
{
    ed25519_dalek::SigningKey::from_bytes(sk).verifying_key().to_bytes()
}

/// Relies on ed25519-dalek's `Signer::sign` for `SigningKey`: signing is
/// deterministic, the signature is 64 bytes, and a signature produced this
/// way verifies under the key's public half (sign-then-verify succeeds).
#[verifier::external_body]
pub fn ed25519_sign(sk: &[u8; 32], msg: &[u8]) -> (r: [u8; 64])
    ensures
        r@ == ed_sig_of(sk@, msg@),
        ed_valid(ed_pk_of(sk@), msg@, r@),
{
    ed25519_dalek::SigningKey::from_bytes(sk).sign(msg).to_bytes()
}

/// Relies on ed25519-dalek's `VerifyingKey::from_bytes` and `verify_strict`:
/// the outcome depends on the public key, the message and the signature
/// alone. A byte string that is no valid public key accepts no signature.
#[verifier::external_body]
pub fn ed25519_verify(pk: &[u8; 32], msg: &[u8], sig: &[u8; 64]) -> (r: bool)
    ensures
        r == ed_valid(pk@, msg@, sig@),
{
    match ed25519_dalek::VerifyingKey::from_bytes(pk) {
        Ok(key) => {
            let sig = ed25519_dalek::Signature::from_bytes(sig);
            key.verify_strict(msg, &sig).is_ok()
        },
        Err(_) => false,
    }
}

/// The X25519 public key belonging to a 32-byte secret key.
pub uninterp spec fn x_pk_of(sk: Seq<u8>) -> Seq<u8>;

/// The X25519 shared secret computed from a secret key and a peer's public
/// key.
pub uninterp spec fn dh_of(sk: Seq<u8>, pk: Seq<u8>) -> Seq<u8>;

/// Relies on x25519-dalek's `x25519` applied to `X25519_BASEPOINT_BYTES`:
/// the public key is derived from the secret key alone.
#[verifier::external_body]
pub fn x25519_public_key(sk: &[u8; 32]) -> (r: [u8; 32])
    ensures
        r@ == x_pk_of(sk@),
{
    x25519_dalek::x25519(*sk, x25519_dalek::X25519_BASEPOINT_BYTES)
}

/// Relies on x25519-dalek's `x25519`: the shared secret is a function of the
/// two keys, and both sides of a Diffie-Hellman exchange compute the same
/// secret (the crate documents the agreement property).
#[verifier::external_body]
pub fn x25519_dh(sk: &[u8; 32], pk: &[u8; 32]) -> (r: [u8; 32])
    ensures
        r@ == dh_of(sk@, pk@),
        forall|other: Seq<u8>|
            pk@ == x_pk_of(other) ==> r@ == dh_of(other, #[trigger] x_pk_of(sk@)),
{
    x25519_dalek::x25519(*sk, *pk)
}

/// The AES-256-GCM ciphertext (with appended tag) for a key, a 12-byte
/// nonce, and a plaintext.
pub uninterp spec fn ae_enc_of(key: Seq<u8>, nonce: Seq<u8>, pt: Seq<u8>) -> Seq<u8>;

/// What AES-256-GCM decryption returns for a key, a 12-byte nonce, and a
/// ciphertext: the plaintext, or nothing when authentication fails.
pub uninterp spec fn ae_dec_of(key: Seq<u8>, nonce: Seq<u8>, ct: Seq<u8>) -> Option<Seq<u8>>;

/// Relies on aes-gcm's `Aes256Gcm::encrypt`: encryption with an explicit
/// nonce is deterministic, the ciphertext is the plaintext length plus the
/// 16-byte tag, and decrypting with the same key and nonce returns the
/// plaintext (the crate documents the round trip). The length bound keeps
/// the input far below the AES-GCM plaintext limit, so `encrypt` cannot
/// fail.
#[verifier::external_body]
pub fn ae_encrypt(key: &[u8; 32], nonce: &[u8], pt: &[u8]) -> (r: Vec<u8>)
    requires
        nonce@.len() == 12,
        pt@.len() < 0x100000000,
    ensures
        r@ == ae_enc_of(key@, nonce@, pt@),
        ae_dec_of(key@, nonce@, r@) == Some(pt@),
        r@.len() == pt@.len() + 16,
{
    let cipher = aes_gcm::Aes256Gcm::new(key.into());
    cipher.encrypt(aes_gcm::Nonce::from_slice(nonce), pt).unwrap()
}

/// Relies on aes-gcm's `Aes256Gcm::decrypt`: the outcome depends on the key,
/// the nonce and the ciphertext alone; a ciphertext that does not
/// authenticate is reported as an error.
#[verifier::external_body]
pub fn ae_decrypt(key: &[u8; 32], nonce: &[u8], ct: &[u8]) -> (r: Option<Vec<u8>>)
    requires
        nonce@.len() == 12,
    ensures
        match r {
            Some(v) => ae_dec_of(key@, nonce@, ct@) == Some(v@),
            None => ae_dec_of(key@, nonce@, ct@) is None,
        },
{
    let cipher = aes_gcm::Aes256Gcm::new(key.into());
    cipher.decrypt(aes_gcm::Nonce::from_slice(nonce), ct).ok()
}

} // verus!
