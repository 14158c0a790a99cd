//! User identities: an X25519 agreement key and an Ed25519 signing key,
//! with asymmetric encryption to a public key (ephemeral Diffie-Hellman
//! plus AEAD) and signatures.

use vstd::prelude::*;

use crate::crypto;
use crate::id::Uid;

verus! {

/// An Ed25519 signature.
#[derive(Debug, Copy, Clone, PartialEq, Eq)]
pub struct Signature {
    pub bytes: [u8; 64],
}

/// A payload encrypted to a public key: an ephemeral X25519 public key, a
/// fresh nonce, and the AEAD ciphertext under the agreed key.
#[derive(Debug, Clone, PartialEq, Eq)]
pub struct Encrypted {
    pub eph_pub: [u8; 32],
    pub nonce: [u8; 12],
    pub ct: Vec<u8>,
}

/// The private half of an identity.
#[derive(Debug, Copy, Clone, PartialEq, Eq)]
pub struct Private {
    pub x_priv: [u8; 32],
    pub ed_priv: [u8; 32],
}

/// The public half of an identity: the two public keys and the user's id.
#[derive(Debug, Copy, Clone, PartialEq, Eq)]
pub struct Public {
    pub x_pub: [u8; 32],
    pub ed_pub: [u8; 32],
    pub id: Uid,
}

/// A full identity.
#[derive(Debug, Copy, Clone, PartialEq, Eq)]
pub struct Identity {
    pub _priv: Private,
    pub _pub: Public,
}

/// The info label under which the agreed Diffie-Hellman secret is expanded
/// into the AEAD key ("asym").
pub open spec fn spec_asym_info() -> Seq<u8> {
    seq![97u8, 115u8, 121u8, 109u8]
}

fn asym_info() -> (r: Vec<u8>)
    ensures
        r@ == spec_asym_info(),
{
    let mut v: Vec<u8> = Vec::new();
    v.push(97);
    v.push(115);
    v.push(121);
    v.push(109);
    proof {
        assert(v@ =~= spec_asym_info());
    }
    v
}

/// Whether the public half carries exactly the public keys of the private
/// half.
pub open spec fn keypair_ok(p: Private, q: Public) -> bool {
    &&& q.x_pub@ == crypto::x_pk_of(p.x_priv@)
    &&& q.ed_pub@ == crypto::ed_pk_of(p.ed_priv@)
}

/// What decrypting an [`Encrypted`] payload with an X25519 secret key
/// yields: the Diffie-Hellman secret with the ephemeral key is expanded
/// into an AEAD key, which must authenticate the ciphertext.
pub open spec fn spec_asym_dec(x_priv: Seq<u8>, e: Encrypted) -> Option<Seq<u8>> {
    crypto::ae_dec_of(
        crypto::hkdf_of(crypto::dh_of(x_priv, e.eph_pub@), spec_asym_info()),
        e.nonce@,
        e.ct@,
    )
}

impl Public {
    /// The user's identifier.
    pub fn id(&self) -> (r: Uid)
        ensures
            r == self.id,
    {
        self.id
    }

    /// Whether this is the root owner's identity.
    pub fn is_god(&self) -> (r: bool)
        ensures
            r == (self.id.spec_value() == crate::user::GOD_ID),
    {
        self.id.value() == crate::user::GOD_ID
    }

    /// Whether a signature over a message verifies under this identity's
    /// signing key.
    pub fn verify(&self, sig: &Signature, msg: &[u8]) -> (r: bool)
        ensures
            r == crypto::ed_valid(self.ed_pub@, msg@, sig.bytes@),
    {
        crypto::ed25519_verify(&self.ed_pub, msg, &sig.bytes)
    }

    /// Encrypts a payload to this identity: whoever holds the matching
    /// X25519 secret key recovers exactly the plaintext.
    pub fn encrypt(&self, pt: &[u8]) -> (r: Encrypted)
        requires
            pt@.len() < 0x100000000,
        ensures
            forall|sk: Seq<u8>|
                self.x_pub@ == #[trigger] crypto::x_pk_of(sk) ==> spec_asym_dec(sk, r) == Some(
                    pt@,
                ),
    {
        let eph_priv = crypto::random_bytes32();
        let eph_pub = crypto::x25519_public_key(&eph_priv);
        let shared = crypto::x25519_dh(&eph_priv, &self.x_pub);
        let info = asym_info();
        let key = crypto::hkdf_expand32(shared.as_slice(), info.as_slice());
        let nonce = crypto::random_bytes12();
        let ct = crypto::ae_encrypt(&key, nonce.as_slice(), pt);
        Encrypted { eph_pub, nonce, ct }
    }
}

impl Private {
    /// Signs a message; the signature verifies under the matching public
    /// key.
    pub fn sign(&self, msg: &[u8]) -> (r: Signature)
        ensures
            r.bytes@ == crypto::ed_sig_of(self.ed_priv@, msg@),
            crypto::ed_valid(crypto::ed_pk_of(self.ed_priv@), msg@, r.bytes@),
    {
        Signature { bytes: crypto::ed25519_sign(&self.ed_priv, msg) }
    }

    /// Decrypts a payload that was encrypted to this identity's public key.
    pub fn decrypt(&self, e: &Encrypted) -> (r: Option<Vec<u8>>)
        ensures
            match r {
                Some(v) => spec_asym_dec(self.x_priv@, *e) == Some(v@),
                None => spec_asym_dec(self.x_priv@, *e) is None,
            },
    {
        let shared = crypto::x25519_dh(&self.x_priv, &e.eph_pub);
        let info = asym_info();
        let key = crypto::hkdf_expand32(shared.as_slice(), info.as_slice());
        crypto::ae_decrypt(&key, e.nonce.as_slice(), e.ct.as_slice())
    }
}

impl Identity {
    /// A fresh identity under the given identifier.
    pub fn generate(id: Uid) -> (r: Identity)
        ensures
            keypair_ok(r._priv, r._pub),
            r._pub.id == id,
    {
        let x_priv = crypto::random_bytes32();
        let ed_priv = crypto::random_bytes32();
        let x_pub = crypto::x25519_public_key(&x_priv);
        let ed_pub = crypto::ed25519_public_key(&ed_priv);
        Identity { _priv: Private { x_priv, ed_priv }, _pub: Public { x_pub, ed_pub, id } }
    }

    /// The user's identifier.
    pub fn id(&self) -> (r: Uid)
        ensures
            r == self._pub.id,
    {
        self._pub.id
    }

    /// The private half.
    pub fn private(&self) -> (r: &Private)
        ensures
            r == self._priv,
    {
        &self._priv
    }

    /// The public half.
    pub fn public(&self) -> (r: &Public)
        ensures
            r == self._pub,
    {
        &self._pub
    }
}

} // verus!
