//! Password-based sealing of byte payloads: a random salt, a key expanded
//! from the password and salt, and an AEAD ciphertext.

use vstd::prelude::*;

use crate::crypto;

verus! {

/// A password-sealed payload.
#[derive(Debug, Clone, PartialEq, Eq)]
pub struct Lock {
    pub salt: [u8; 32],
    pub nonce: [u8; 12],
    pub ct: Vec<u8>,
}

impl Lock {
    /// An equal copy of the lock.
    pub fn duplicate(&self) -> (r: Self)
        ensures
            r.salt == self.salt,
            r.nonce == self.nonce,
            r.ct@ == self.ct@,
    {
        Lock { salt: self.salt, nonce: self.nonce, ct: crate::fs::dup_bytes(&self.ct) }
    }
}

/// The info label under which a password key is expanded ("pass") followed
/// by the salt.
pub open spec fn spec_pass_info(salt: Seq<u8>) -> Seq<u8> {
    seq![112u8, 97u8, 115u8, 115u8] + salt
}

/// The AEAD key a password and salt expand to.
pub open spec fn spec_pass_key(pass: Seq<u8>, salt: Seq<u8>) -> Seq<u8> {
    crypto::hkdf_of(pass, spec_pass_info(salt))
}

/// What unsealing a lock with a password yields.
pub open spec fn spec_unlock(l: Lock, pass: Seq<u8>) -> Option<Seq<u8>> {
    crypto::ae_dec_of(spec_pass_key(pass, l.salt@), l.nonce@, l.ct@)
}

fn pass_info(salt: &[u8; 32]) -> (r: Vec<u8>)
    ensures
        r@ == spec_pass_info(salt@),
{
    let mut v: Vec<u8> = Vec::new();
    v.push(112);
    v.push(97);
    v.push(115);
    v.push(115);
    v.extend_from_slice(salt.as_slice());
    proof {
        assert(v@ =~= spec_pass_info(salt@));
    }
    v
}

/// Seals a payload under a password: unsealing with the same password
/// returns exactly the payload.
pub fn lock(pt: &[u8], pass: &[u8]) -> (r: Lock)
    requires
        pt@.len() < 0x100000000,
    ensures
        spec_unlock(r, pass@) == Some(pt@),
{
    let salt = crypto::random_bytes32();
    let info = pass_info(&salt);
    let key = crypto::hkdf_expand32(pass, info.as_slice());
    let nonce = crypto::random_bytes12();
    let ct = crypto::ae_encrypt(&key, nonce.as_slice(), pt);
    Lock { salt, nonce, ct }
}

/// Unseals a lock with a password; fails when the password (or the lock)
/// is wrong.
pub fn unlock(l: &Lock, pass: &[u8]) -> (r: Option<Vec<u8>>)
    ensures
        match r {
            Some(v) => spec_unlock(*l, pass@) == Some(v@),
            None => spec_unlock(*l, pass@) is None,
        },
{
    let info = pass_info(&l.salt);
    let key = crypto::hkdf_expand32(pass, info.as_slice());
    crypto::ae_decrypt(&key, l.nonce.as_slice(), l.ct.as_slice())
}

} // verus!
