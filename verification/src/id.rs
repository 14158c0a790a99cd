//! Opaque 64-bit identifiers for users, filesystem nodes, tables and columns.

use vstd::prelude::*;

use crate::crypto;

verus! {

/// An opaque 64-bit identifier. Its wire form is the URL-safe base64
/// encoding of its 8 big-endian bytes.
#[derive(Debug, Copy, Clone, PartialEq, Eq, Structural, Hash)]
pub struct Uid(pub u64);

/// The 8 big-endian bytes of a 64-bit value.
pub open spec fn spec_be_bytes(v: u64) -> Seq<u8> {
    seq![
        (v >> 56) as u8,
        ((v >> 48) & 0xff) as u8,
        ((v >> 40) & 0xff) as u8,
        ((v >> 32) & 0xff) as u8,
        ((v >> 24) & 0xff) as u8,
        ((v >> 16) & 0xff) as u8,
        ((v >> 8) & 0xff) as u8,
        (v & 0xff) as u8,
    ]
}

/// The 64-bit value read back from 8 big-endian bytes.
pub open spec fn spec_be_u64(s: Seq<u8>) -> u64
    recommends
        s.len() == 8,
{
    (((s[0] as u64) << 56) | ((s[1] as u64) << 48) | ((s[2] as u64) << 40) | ((s[3] as u64) << 32)
        | ((s[4] as u64) << 24) | ((s[5] as u64) << 16) | ((s[6] as u64) << 8) | (s[7] as u64)) as u64
}

/// Reading the big-endian bytes of a value back gives the value.
pub proof fn lemma_be_round_trip(v: u64)
    ensures
        spec_be_u64(spec_be_bytes(v)) == v,
{
    assert(((((v >> 56) as u8) as u64) << 56) | (((((v >> 48) & 0xff) as u8) as u64) << 48)
        | (((((v >> 40) & 0xff) as u8) as u64) << 40) | (((((v >> 32) & 0xff) as u8) as u64) << 32)
        | (((((v >> 24) & 0xff) as u8) as u64) << 24) | (((((v >> 16) & 0xff) as u8) as u64) << 16)
        | (((((v >> 8) & 0xff) as u8) as u64) << 8) | (((v & 0xff) as u8) as u64) == v)
        by (bit_vector);
}

/// What parsing a base64 string as a `Uid` yields: the 64-bit value of the
/// decoded 8 bytes, or nothing when the string does not decode to exactly 8
/// bytes.
pub open spec fn spec_uid_from_base64(s: Seq<char>) -> Option<Uid> {
    match crypto::b64_dec_of(s) {
        Some(bytes) => if bytes.len() == 8 {
            Some(Uid(spec_be_u64(bytes)))
        } else {
            None
        },
        None => None,
    }
}

impl Uid {
    pub open spec fn spec_value(self) -> u64 {
        self.0
    }

    pub fn new(v: u64) -> (r: Self)
        ensures
            r.spec_value() == v,
    {
        Uid(v)
    }

    /// The raw 64-bit value.
    pub fn value(&self) -> (r: u64)
        ensures
            r == self.spec_value(),
    {
        self.0
    }

    /// A fresh identifier from 8 random bytes. Nothing is promised of a
    /// random value.
    pub fn generate() -> Self {
        let bytes = crypto::random_bytes32();
        Uid(be_u64_from_prefix(&bytes))
    }

    /// The identifier derived from arbitrary bytes: the big-endian value of
    /// the first 8 bytes of the input's SHA-256 digest.
    pub fn from_bytes(bytes: &[u8]) -> (r: Self)
        ensures
            r.spec_value() == spec_be_u64(crypto::sha256_of(bytes@).subrange(0, 8)),
    {
        let digest = crypto::sha256(bytes);
        let v = be_u64_from_prefix(&digest);
        proof {
            assert(digest@.subrange(0, 8) =~= crypto::sha256_of(bytes@).subrange(0, 8));
        }
        Uid(v)
    }

    /// The identifier's 8 big-endian bytes.
    pub fn as_bytes(&self) -> (r: [u8; 8])
        ensures
            r@ == spec_be_bytes(self.spec_value()),
    {
        let v = self.0;
        let r: [u8; 8] = [
            (v >> 56) as u8,
            ((v >> 48) & 0xff) as u8,
            ((v >> 40) & 0xff) as u8,
            ((v >> 32) & 0xff) as u8,
            ((v >> 24) & 0xff) as u8,
            ((v >> 16) & 0xff) as u8,
            ((v >> 8) & 0xff) as u8,
            (v & 0xff) as u8,
        ];
        assert(r@ =~= spec_be_bytes(v));
        r
    }

    /// The URL-safe base64 form of the identifier. Parsing the returned
    /// string yields the identifier back (the wire form round-trips).
    pub fn to_base64(&self) -> (r: String)
        ensures
            r@ == crypto::b64_of(spec_be_bytes(self.spec_value())),
            spec_uid_from_base64(r@) == Some(*self),
    {
        let bytes = self.as_bytes();
        let r = crypto::b64_encode(bytes.as_slice());
        proof {
            lemma_be_round_trip(self.0);
        }
        r
    }

    /// Parses the base64 wire form: the string must decode to exactly 8
    /// bytes, which are read as a big-endian 64-bit value.
    pub fn parse_base64(s: &str) -> (r: Option<Self>)
        ensures
            r == spec_uid_from_base64(s@),
    {
        match crypto::b64_decode(s) {
            Some(bytes) => {
                if bytes.len() == 8 {
                    let v = ((bytes[0] as u64) << 56) | ((bytes[1] as u64) << 48)
                        | ((bytes[2] as u64) << 40) | ((bytes[3] as u64) << 32)
                        | ((bytes[4] as u64) << 24) | ((bytes[5] as u64) << 16)
                        | ((bytes[6] as u64) << 8) | (bytes[7] as u64);
                    Some(Uid(v))
                } else {
                    None
                }
            },
            None => None,
        }
    }
}

/// The big-endian 64-bit value of the first 8 bytes of a 32-byte array.
fn be_u64_from_prefix(bytes: &[u8; 32]) -> (r: u64)
    ensures
        r == spec_be_u64(bytes@.subrange(0, 8)),
{
    let v = ((bytes[0] as u64) << 56) | ((bytes[1] as u64) << 48) | ((bytes[2] as u64) << 40)
        | ((bytes[3] as u64) << 32) | ((bytes[4] as u64) << 24) | ((bytes[5] as u64) << 16)
        | ((bytes[6] as u64) << 8) | (bytes[7] as u64);
    proof {
        let s = bytes@.subrange(0, 8);
        assert(s[0] == bytes@[0] && s[1] == bytes@[1] && s[2] == bytes@[2] && s[3] == bytes@[3]
            && s[4] == bytes@[4] && s[5] == bytes@[5] && s[6] == bytes@[6] && s[7] == bytes@[7]);
    }
    v
}

impl std::str::FromStr for Uid {
    type Err = String;

    fn from_str(s: &str) -> Result<Self, Self::Err> {
        match crypto::b64_decode(s) {
            None => Err("invalid base64".to_owned()),
            Some(bytes) => {
                if bytes.len() != 8 {
                    return Err("wrong length".to_owned());
                }
                let v = ((bytes[0] as u64) << 56) | ((bytes[1] as u64) << 48) | ((
                bytes[2] as u64) << 40) | ((bytes[3] as u64) << 32) | ((bytes[4] as u64) << 24)
                    | ((bytes[5] as u64) << 16) | ((bytes[6] as u64) << 8) | (bytes[7] as u64);
                Ok(Uid(v))
            },
        }
    }
}

} // verus!
