//! The database index model and the seed-derivation tree.
//!
//! Tables and columns are opaque names; each maps deterministically to a
//! [`Uid`] via a labelled hash, and each has a seed derived from its parent
//! by a labelled HKDF expansion. The labelling is chosen so that every
//! entry seed is the same whatever derivation path produced it.

use vstd::prelude::*;
use vstd::string::StringSliceAdditionalSpecFns;
use vstd::utf8::encode_utf8;

use crate::crypto;
use crate::id::{spec_be_bytes, spec_be_u64, Uid};
use crate::seeds::Seed;

verus! {

/// A fresh random value stored beside each encrypted cell, so that equal
/// plaintexts encrypt differently.
#[derive(Debug, Copy, Clone, PartialEq, Eq)]
pub struct Salt {
    pub bytes: [u8; 32],
}

impl Salt {
    /// A fresh random salt. Nothing is promised of a random value.
    pub fn generate() -> Self {
        Salt { bytes: crypto::random_bytes32() }
    }
}

/// A database object a seed can be held for: a whole table, or one column
/// of a table.
#[derive(Debug, Clone, PartialEq, Eq)]
pub enum Index {
    Table { table: String },
    Column { table: String, column: String },
}

/// The label bytes of a table: "tbl" followed by the table name.
pub open spec fn spec_table_label(table: Seq<char>) -> Seq<u8> {
    seq![116u8, 98u8, 108u8] + encode_utf8(table)
}

/// The label bytes of a column under its table: "col" followed by the
/// column name.
pub open spec fn spec_column_label(column: Seq<char>) -> Seq<u8> {
    seq![99u8, 111u8, 108u8] + encode_utf8(column)
}

/// The label bytes identifying a column globally: "col", the length of the
/// table name, the table name, then the column name. The length prefix
/// keeps distinct (table, column) pairs from sharing label bytes.
pub open spec fn spec_column_id_label(table: Seq<char>, column: Seq<char>) -> Seq<u8> {
    seq![99u8, 111u8, 108u8] + spec_be_bytes(encode_utf8(table).len() as u64) + encode_utf8(table)
        + encode_utf8(column)
}

/// The label bytes of an entry: "ent" followed by the cell's salt.
pub open spec fn spec_entry_label(salt: Seq<u8>) -> Seq<u8> {
    seq![101u8, 110u8, 116u8] + salt
}

/// A table's deterministic id: the hash of its label.
pub open spec fn spec_table_id(table: Seq<char>) -> u64 {
    spec_be_u64(crypto::sha256_of(spec_table_label(table)).subrange(0, 8))
}

/// A column's deterministic id: the hash of its global label.
pub open spec fn spec_column_id(table: Seq<char>, column: Seq<char>) -> u64 {
    spec_be_u64(crypto::sha256_of(spec_column_id_label(table, column)).subrange(0, 8))
}

/// The id a bundle's database map is keyed by for an index.
pub open spec fn spec_index_id(idx: Index) -> u64 {
    match idx {
        Index::Table { table } => spec_table_id(table@),
        Index::Column { table, column } => spec_column_id(table@, column@),
    }
}

/// A table's seed, derived from the database root seed.
pub open spec fn spec_table_seed(db_seed: Seq<u8>, table: Seq<char>) -> Seq<u8> {
    crypto::hkdf_of(db_seed, spec_table_label(table))
}

/// A column's seed, derived from its table's seed.
pub open spec fn spec_column_seed_from_table(table_seed: Seq<u8>, column: Seq<char>) -> Seq<u8> {
    crypto::hkdf_of(table_seed, spec_column_label(column))
}

/// A column's seed, derived from the database root seed through its table.
pub open spec fn spec_column_seed(db_seed: Seq<u8>, table: Seq<char>, column: Seq<char>) -> Seq<
    u8,
> {
    spec_column_seed_from_table(spec_table_seed(db_seed, table), column)
}

/// An entry's seed, derived from its column's seed and the cell's salt.
pub open spec fn spec_entry_seed(column_seed: Seq<u8>, salt: Seq<u8>) -> Seq<u8> {
    crypto::hkdf_of(column_seed, spec_entry_label(salt))
}

/// Every derivation path to an entry seed yields the same value: deriving
/// the column seed from the root and then applying the salt equals deriving
/// the table seed first, then the column seed, then applying the salt.
pub proof fn lemma_entry_seed_path_independent(
    db_seed: Seq<u8>,
    table: Seq<char>,
    column: Seq<char>,
    salt: Seq<u8>,
)
    ensures
        spec_entry_seed(spec_column_seed(db_seed, table, column), salt) == spec_entry_seed(
            spec_column_seed_from_table(spec_table_seed(db_seed, table), column),
            salt,
        ),
{
}

/// Appends the bytes of "tbl" + name.
fn push_table_label(out: &mut Vec<u8>, table: &str)
    ensures
        final(out)@ == old(out)@ + spec_table_label(table@),
{
    out.push(116);
    out.push(98);
    out.push(108);
    out.extend_from_slice(table.as_bytes());
    proof {
        assert(out@ =~= old(out)@ + spec_table_label(table@));
    }
}

/// Appends the bytes of "col" + name.
fn push_column_label(out: &mut Vec<u8>, column: &str)
    ensures
        final(out)@ == old(out)@ + spec_column_label(column@),
{
    out.push(99);
    out.push(111);
    out.push(108);
    out.extend_from_slice(column.as_bytes());
    proof {
        assert(out@ =~= old(out)@ + spec_column_label(column@));
    }
}

/// The deterministic id of a table.
pub fn id_for_table(table: &str) -> (r: Uid)
    ensures
        r.spec_value() == spec_table_id(table@),
{
    let mut label: Vec<u8> = Vec::new();
    push_table_label(&mut label, table);
    proof {
        assert(label@ =~= spec_table_label(table@));
    }
    Uid::from_bytes(label.as_slice())
}

/// The deterministic id of a column.
pub fn id_for_column(table: &str, column: &str) -> (r: Uid)
    ensures
        r.spec_value() == spec_column_id(table@, column@),
{
    let mut label: Vec<u8> = Vec::new();
    label.push(99);
    label.push(111);
    label.push(108);
    let table_bytes = table.as_bytes();
    let len_id = Uid::new(table_bytes.len() as u64);
    let len_bytes = len_id.as_bytes();
    label.extend_from_slice(len_bytes.as_slice());
    label.extend_from_slice(table_bytes);
    label.extend_from_slice(column.as_bytes());
    proof {
        assert(label@ =~= spec_column_id_label(table@, column@));
    }
    Uid::from_bytes(label.as_slice())
}

impl Index {
    /// The id this index is keyed by in a bundle's database map.
    pub fn as_id(&self) -> (r: Uid)
        ensures
            r.spec_value() == spec_index_id(*self),
    {
        match self {
            Index::Table { table } => id_for_table(table.as_str()),
            Index::Column { table, column } => id_for_column(table.as_str(), column.as_str()),
        }
    }
}

/// Derives a table's seed from the database root seed.
pub fn derive_table_seed_from_root(db_seed: &Seed, table: &str) -> (r: Seed)
    ensures
        r.bytes@ == spec_table_seed(db_seed.bytes@, table@),
{
    let mut label: Vec<u8> = Vec::new();
    push_table_label(&mut label, table);
    proof {
        assert(label@ =~= spec_table_label(table@));
    }
    Seed { bytes: crypto::hkdf_expand32(db_seed.bytes.as_slice(), label.as_slice()) }
}

/// Derives a column's seed from its table's seed.
pub fn derive_column_seed_from_table(table_seed: &Seed, column: &str) -> (r: Seed)
    ensures
        r.bytes@ == spec_column_seed_from_table(table_seed.bytes@, column@),
{
    let mut label: Vec<u8> = Vec::new();
    push_column_label(&mut label, column);
    proof {
        assert(label@ =~= spec_column_label(column@));
    }
    Seed { bytes: crypto::hkdf_expand32(table_seed.bytes.as_slice(), label.as_slice()) }
}

/// Derives a column's seed from the database root seed, through the table's
/// seed.
pub fn derive_column_seed_from_root(db_seed: &Seed, table: &str, column: &str) -> (r: Seed)
    ensures
        r.bytes@ == spec_column_seed(db_seed.bytes@, table@, column@),
{
    let table_seed = derive_table_seed_from_root(db_seed, table);
    derive_column_seed_from_table(&table_seed, column)
}

/// The AEAD key an entry seed expands to ("key").
pub open spec fn spec_cell_key(entry_seed: Seq<u8>) -> Seq<u8> {
    crypto::hkdf_of(entry_seed, seq![107u8, 101u8, 121u8])
}

/// The AEAD nonce an entry seed expands to: the first 12 bytes of its
/// "iv" expansion.
pub open spec fn spec_cell_nonce(entry_seed: Seq<u8>) -> Seq<u8> {
    crypto::hkdf_of(entry_seed, seq![105u8, 118u8]).take(12)
}

/// What decrypting a cell with a column seed yields: the salt is read
/// from the cell's first 32 bytes, the entry seed is re-derived, and the
/// remainder must authenticate under the expanded key and nonce.
pub open spec fn spec_cell_dec(column_seed: Seq<u8>, cell: Seq<u8>) -> Option<Seq<u8>> {
    if cell.len() < 32 {
        None
    } else {
        let entry_seed = spec_entry_seed(column_seed, cell.take(32));
        crypto::ae_dec_of(
            spec_cell_key(entry_seed),
            spec_cell_nonce(entry_seed),
            cell.skip(32),
        )
    }
}

/// The expanded key and nonce of an entry seed.
fn cell_key_nonce(entry_seed: &Seed) -> (r: ([u8; 32], Vec<u8>))
    ensures
        r.0@ == spec_cell_key(entry_seed.bytes@),
        r.1@ == spec_cell_nonce(entry_seed.bytes@),
        r.1@.len() == 12,
{
    let mut key_label: Vec<u8> = Vec::new();
    key_label.push(107);
    key_label.push(101);
    key_label.push(121);
    proof {
        assert(key_label@ =~= seq![107u8, 101u8, 121u8]);
    }
    let key = crypto::hkdf_expand32(entry_seed.bytes.as_slice(), key_label.as_slice());
    let mut iv_label: Vec<u8> = Vec::new();
    iv_label.push(105);
    iv_label.push(118);
    proof {
        assert(iv_label@ =~= seq![105u8, 118u8]);
    }
    let iv_full = crypto::hkdf_expand32(entry_seed.bytes.as_slice(), iv_label.as_slice());
    let mut nonce: Vec<u8> = Vec::new();
    let mut i: usize = 0;
    while i < 12
        invariant
            i <= 12,
            nonce@ == iv_full@.take(i as int),
        decreases 12 - i,
    {
        nonce.push(iv_full[i]);
        proof {
            assert(iv_full@.take(i + 1) =~= iv_full@.take(i as int).push(iv_full@[i as int]));
        }
        i += 1;
    }
    (key, nonce)
}

/// Encrypts a cell under a column seed: a fresh salt, then the AEAD
/// ciphertext under the entry seed the salt derives. Decrypting with the
/// same column seed returns the plaintext.
pub fn cell_encrypt(column_seed: &Seed, pt: &[u8]) -> (r: Vec<u8>)
    requires
        pt@.len() < 0x10000000,
    ensures
        spec_cell_dec(column_seed.bytes@, r@) == Some(pt@),
{
    let salt = Salt::generate();
    let salt_seed = Salt { bytes: salt.bytes };
    let entry_seed = derive_entry_seed_from_column(column_seed, &salt_seed);
    let (key, nonce) = cell_key_nonce(&entry_seed);
    let ct = crypto::ae_encrypt(&key, nonce.as_slice(), pt);
    let mut out: Vec<u8> = Vec::new();
    out.extend_from_slice(salt.bytes.as_slice());
    out.extend_from_slice(ct.as_slice());
    proof {
        assert(out@.take(32) =~= salt.bytes@);
        assert(out@.skip(32) =~= ct@);
    }
    out
}

/// Decrypts a cell under a column seed; the cell must carry its salt and
/// an authenticating ciphertext.
pub fn cell_decrypt(column_seed: &Seed, cell: &[u8]) -> (r: Option<Vec<u8>>)
    ensures
        match r {
            Some(v) => spec_cell_dec(column_seed.bytes@, cell@) == Some(v@),
            None => spec_cell_dec(column_seed.bytes@, cell@) is None,
        },
{
    if cell.len() < 32 {
        return None;
    }
    let salt_seed = crate::codec::seed_at(cell, 0);
    let salt = Salt { bytes: salt_seed.bytes };
    proof {
        assert(salt.bytes@ =~= cell@.take(32));
    }
    let entry_seed = derive_entry_seed_from_column(column_seed, &salt);
    let (key, nonce) = cell_key_nonce(&entry_seed);
    let ct = crate::fs::dup_bytes_from(cell, 32);
    proof {
        assert(ct@ =~= cell@.skip(32));
    }
    crypto::ae_decrypt(&key, nonce.as_slice(), ct.as_slice())
}

/// Derives an entry's seed from its column's seed and a cell's salt.
pub fn derive_entry_seed_from_column(column_seed: &Seed, salt: &Salt) -> (r: Seed)
    ensures
        r.bytes@ == spec_entry_seed(column_seed.bytes@, salt.bytes@),
{
    let mut label: Vec<u8> = Vec::new();
    label.push(101);
    label.push(110);
    label.push(116);
    label.extend_from_slice(salt.bytes.as_slice());
    proof {
        assert(label@ =~= spec_entry_label(salt.bytes@));
    }
    Seed { bytes: crypto::hkdf_expand32(column_seed.bytes.as_slice(), label.as_slice()) }
}

} // verus!
