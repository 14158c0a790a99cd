//! The byte framing of bundles and private keys.
//!
//! A bundle travels inside an encrypted share payload as plain bytes: a
//! count and 40-byte entries (8 id bytes, 32 seed bytes) for each of its
//! two maps. Parsing is strict — the frame must be consumed exactly and
//! may not repeat an id — and parsing an encoding returns the encoded
//! entries.

use vstd::prelude::*;

use crate::id::{spec_be_bytes, spec_be_u64, Uid};
use crate::identity::Private;
use crate::seeds::{distinct_uid_keys, Bundle, Seed, Seeds};

verus! {

/// The bytes of an entry list: 8 id bytes then 32 seed bytes, per entry.
pub open spec fn spec_entries_bytes(s: Seq<(Uid, Seed)>) -> Seq<u8>
    decreases s.len(),
{
    if s.len() == 0 {
        Seq::empty()
    } else {
        spec_be_bytes(s.first().0.0) + s.first().1.bytes@ + spec_entries_bytes(s.drop_first())
    }
}

/// The bytes of a bundle: each map as a count followed by its entries.
pub open spec fn spec_bundle_bytes(fs: Seq<(Uid, Seed)>, db: Seq<(Uid, Seed)>) -> Seq<u8> {
    spec_be_bytes(fs.len() as u64) + spec_entries_bytes(fs) + spec_be_bytes(db.len() as u64)
        + spec_entries_bytes(db)
}

/// An entry list read back as raw values: id and seed bytes per entry.
pub open spec fn spec_raw_entries(bytes: Seq<u8>, n: int) -> Seq<(u64, Seq<u8>)> {
    Seq::new(
        n as nat,
        |i: int|
            (
                spec_be_u64(bytes.subrange(40 * i, 40 * i + 8)),
                bytes.subrange(40 * i + 8, 40 * i + 40),
            ),
    )
}

/// All raw entry ids are pairwise distinct.
pub open spec fn spec_raw_distinct(s: Seq<(u64, Seq<u8>)>) -> bool {
    forall|m: int, n: int| 0 <= m < n < s.len() ==> (#[trigger] s[m]).0 != (#[trigger] s[n]).0
}

/// What parsing a bundle frame yields: the two raw entry lists, or nothing
/// when the frame is truncated, has trailing bytes, or repeats an id.
pub open spec fn spec_parse_bundle(bytes: Seq<u8>) -> Option<
    (Seq<(u64, Seq<u8>)>, Seq<(u64, Seq<u8>)>),
> {
    if bytes.len() < 8 {
        None
    } else {
        let nf = spec_be_u64(bytes.subrange(0, 8)) as int;
        if bytes.len() < 16 + 40 * nf {
            None
        } else {
            let nd = spec_be_u64(bytes.subrange(8 + 40 * nf, 16 + 40 * nf)) as int;
            if bytes.len() != 16 + 40 * nf + 40 * nd {
                None
            } else {
                let fs = spec_raw_entries(bytes.skip(8), nf);
                let db = spec_raw_entries(bytes.skip(16 + 40 * nf), nd);
                if spec_raw_distinct(fs) && spec_raw_distinct(db) {
                    Some((fs, db))
                } else {
                    None
                }
            }
        }
    }
}

/// Whether an entry list carries exactly the values of a raw list.
pub open spec fn entries_match(s: Seq<(Uid, Seed)>, raw: Seq<(u64, Seq<u8>)>) -> bool {
    &&& s.len() == raw.len()
    &&& forall|i: int|
        0 <= i < s.len() ==> (#[trigger] s[i]).0.spec_value() == raw[i].0 && s[i].1.bytes@
            == raw[i].1
}

/// An entry list's bytes are 40 bytes per entry.
pub proof fn lemma_entries_bytes_len(s: Seq<(Uid, Seed)>)
    ensures
        spec_entries_bytes(s).len() == 40 * s.len(),
    decreases s.len(),
{
    if s.len() > 0 {
        lemma_entries_bytes_len(s.drop_first());
    }
}

/// Each entry's id and seed bytes sit at their 40-byte slot.
pub proof fn lemma_entries_bytes_index(s: Seq<(Uid, Seed)>, i: int)
    requires
        0 <= i < s.len(),
    ensures
        spec_entries_bytes(s).subrange(40 * i, 40 * i + 8) == spec_be_bytes(s[i].0.0),
        spec_entries_bytes(s).subrange(40 * i + 8, 40 * i + 40) == s[i].1.bytes@,
    decreases s.len(),
{
    lemma_entries_bytes_len(s);
    let head = spec_be_bytes(s.first().0.0) + s.first().1.bytes@;
    let tail = spec_entries_bytes(s.drop_first());
    assert(spec_entries_bytes(s) == head + tail);
    if i == 0 {
        assert(spec_entries_bytes(s).subrange(0, 8) =~= spec_be_bytes(s[0].0.0));
        assert(spec_entries_bytes(s).subrange(8, 40) =~= s[0].1.bytes@);
    } else {
        lemma_entries_bytes_index(s.drop_first(), i - 1);
        lemma_entries_bytes_len(s.drop_first());
        assert(s.drop_first()[i - 1] == s[i]);
        assert(spec_entries_bytes(s).subrange(40 * i, 40 * i + 8) =~= tail.subrange(
            40 * (i - 1),
            40 * (i - 1) + 8,
        ));
        assert(spec_entries_bytes(s).subrange(40 * i + 8, 40 * i + 40) =~= tail.subrange(
            40 * (i - 1) + 8,
            40 * (i - 1) + 40,
        ));
    }
}

/// A section of a larger frame reads back as its encoded entries.
proof fn lemma_raw_section(all: Seq<u8>, off: int, s: Seq<(Uid, Seed)>)
    requires
        0 <= off,
        off + 40 * s.len() <= all.len(),
        all.subrange(off, off + 40 * s.len()) == spec_entries_bytes(s),
    ensures
        entries_match(s, spec_raw_entries(all.skip(off), s.len() as int)),
{
    lemma_entries_bytes_len(s);
    let sec = all.subrange(off, off + 40 * s.len());
    assert forall|i: int| 0 <= i < s.len() implies (#[trigger] s[i]).0.spec_value()
        == spec_raw_entries(all.skip(off), s.len() as int)[i].0 && s[i].1.bytes@
        == spec_raw_entries(all.skip(off), s.len() as int)[i].1 by {
        lemma_entries_bytes_index(s, i);
        assert(all.skip(off).subrange(40 * i, 40 * i + 8) =~= sec.subrange(40 * i, 40 * i + 8));
        assert(all.skip(off).subrange(40 * i + 8, 40 * i + 40) =~= sec.subrange(
            40 * i + 8,
            40 * i + 40,
        ));
        crate::id::lemma_be_round_trip(s[i].0.0);
    }
}

/// The pieces of a four-part concatenation sit at their offsets.
proof fn lemma_concat4_pieces(a: Seq<u8>, b: Seq<u8>, c: Seq<u8>, d: Seq<u8>)
    ensures
        ({
            let all = a + b + c + d;
            let la = a.len() as int;
            let lb = b.len() as int;
            let lc = c.len() as int;
            let ld = d.len() as int;
            &&& all.len() == la + lb + lc + ld
            &&& all.subrange(0, la) == a
            &&& all.subrange(la, la + lb) == b
            &&& all.subrange(la + lb, la + lb + lc) == c
            &&& all.subrange(la + lb + lc, la + lb + lc + ld) == d
        }),
{
    let all = a + b + c + d;
    let la = a.len() as int;
    let lb = b.len() as int;
    let lc = c.len() as int;
    let ld = d.len() as int;
    assert(all.subrange(0, la) =~= a);
    assert(all.subrange(la, la + lb) =~= b);
    assert(all.subrange(la + lb, la + lb + lc) =~= c);
    assert(all.subrange(la + lb + lc, la + lb + lc + ld) =~= d);
}

/// Once a frame's shape facts are established, parsing succeeds and
/// returns the encoded entries.
proof fn lemma_parse_conclusion(bytes: Seq<u8>, fs: Seq<(Uid, Seed)>, db: Seq<(Uid, Seed)>)
    requires
        distinct_uid_keys(fs),
        distinct_uid_keys(db),
        bytes.len() == 16 + 40 * (fs.len() as int) + 40 * (db.len() as int),
        spec_be_u64(bytes.subrange(0, 8)) == fs.len() as u64,
        spec_be_u64(
            bytes.subrange(8 + 40 * (fs.len() as int), 16 + 40 * (fs.len() as int)),
        ) == db.len() as u64,
        fs.len() <= 0xffff_ffff,
        db.len() <= 0xffff_ffff,
        entries_match(fs, spec_raw_entries(bytes.skip(8), fs.len() as int)),
        entries_match(
            db,
            spec_raw_entries(bytes.skip(16 + 40 * (fs.len() as int)), db.len() as int),
        ),
    ensures
        ({
            let r = spec_parse_bundle(bytes);
            &&& r is Some
            &&& entries_match(fs, r.unwrap().0)
            &&& entries_match(db, r.unwrap().1)
        }),
{
    let nf = fs.len() as int;
    let nd = db.len() as int;
    let fs_raw = spec_raw_entries(bytes.skip(8), nf);
    let db_raw = spec_raw_entries(bytes.skip(16 + 40 * nf), nd);
    assert forall|m: int, n: int| 0 <= m < n < fs_raw.len() implies (#[trigger] fs_raw[m]).0 != (
    #[trigger] fs_raw[n]).0 by {
        assert(fs[m].0.spec_value() == fs_raw[m].0);
        assert(fs[n].0.spec_value() == fs_raw[n].0);
        assert(fs[m].0.spec_value() != fs[n].0.spec_value());
    }
    assert forall|m: int, n: int| 0 <= m < n < db_raw.len() implies (#[trigger] db_raw[m]).0 != (
    #[trigger] db_raw[n]).0 by {
        assert(db[m].0.spec_value() == db_raw[m].0);
        assert(db[n].0.spec_value() == db_raw[n].0);
        assert(db[m].0.spec_value() != db[n].0.spec_value());
    }
    assert(spec_raw_distinct(fs_raw));
    assert(spec_raw_distinct(db_raw));
    assert(spec_parse_bundle(bytes) == Some((fs_raw, db_raw)));
}

/// Parsing an encoded bundle returns exactly the encoded entries.
pub proof fn lemma_parse_encode(fs: Seq<(Uid, Seed)>, db: Seq<(Uid, Seed)>)
    requires
        distinct_uid_keys(fs),
        distinct_uid_keys(db),
        fs.len() <= 0xffff_ffff,
        db.len() <= 0xffff_ffff,
    ensures
        ({
            let r = spec_parse_bundle(spec_bundle_bytes(fs, db));
            &&& r is Some
            &&& entries_match(fs, r.unwrap().0)
            &&& entries_match(db, r.unwrap().1)
        }),
{
    let bytes = spec_bundle_bytes(fs, db);
    let a = spec_be_bytes(fs.len() as u64);
    let fsb = spec_entries_bytes(fs);
    let c = spec_be_bytes(db.len() as u64);
    let dbb = spec_entries_bytes(db);
    lemma_entries_bytes_len(fs);
    lemma_entries_bytes_len(db);
    crate::id::lemma_be_round_trip(fs.len() as u64);
    crate::id::lemma_be_round_trip(db.len() as u64);
    lemma_concat4_pieces(a, fsb, c, dbb);
    let nf = fs.len() as int;
    let nd = db.len() as int;
    assert(bytes.subrange(0, 8) == a);
    assert(bytes.subrange(8 + 40 * nf, 16 + 40 * nf) == c);
    assert(bytes.subrange(8, 8 + 40 * nf) == fsb);
    assert(bytes.subrange(16 + 40 * nf, 16 + 40 * nf + 40 * nd) == dbb);
    lemma_raw_section(bytes, 8, fs);
    lemma_raw_section(bytes, 16 + 40 * nf, db);
    lemma_parse_conclusion(bytes, fs, db);
}

/// A frame that parses has exactly the length its entry counts demand.
pub proof fn lemma_parse_len(bytes: Seq<u8>)
    requires
        spec_parse_bundle(bytes) is Some,
    ensures
        bytes.len() == 16 + 40 * spec_parse_bundle(bytes).unwrap().0.len() + 40
            * spec_parse_bundle(bytes).unwrap().1.len(),
{
}

/// Appends an entry list: 8 id bytes then 32 seed bytes per entry.
fn append_entries(out: &mut Vec<u8>, s: &Seeds)
    ensures
        final(out)@ == old(out)@ + spec_entries_bytes(s@),
{
    let ghost base = out@;
    let n = s.len();
    for i in 0..n
        invariant
            n == s@.len(),
            out@ == base + spec_entries_bytes(s@.take(i as int)),
        decreases n - i,
    {
        let (id, seed) = s.at(i);
        let id_bytes = id.as_bytes();
        out.extend_from_slice(id_bytes.as_slice());
        out.extend_from_slice(seed.bytes.as_slice());
        proof {
            lemma_entries_bytes_snoc(s@.take(i as int), s@[i as int]);
            assert(s@.take(i + 1) =~= s@.take(i as int).push(s@[i as int]));
            assert(out@ =~= base + spec_entries_bytes(s@.take(i + 1)));
        }
    }
    proof {
        assert(s@.take(n as int) =~= s@);
    }
}

/// Appending an entry appends its 40 bytes.
proof fn lemma_entries_bytes_snoc(s: Seq<(Uid, Seed)>, p: (Uid, Seed))
    ensures
        spec_entries_bytes(s.push(p)) == spec_entries_bytes(s) + spec_be_bytes(p.0.0) + p.1.bytes@,
    decreases s.len(),
{
    if s.len() == 0 {
        assert(s.push(p).first() == p);
        assert(s.push(p).drop_first() =~= Seq::<(Uid, Seed)>::empty());
        assert(spec_entries_bytes(s.push(p)) == spec_be_bytes(p.0.0) + p.1.bytes@
            + spec_entries_bytes(Seq::<(Uid, Seed)>::empty()));
        assert(spec_entries_bytes(s.push(p)) =~= spec_entries_bytes(s) + spec_be_bytes(p.0.0)
            + p.1.bytes@);
    } else {
        assert(s.push(p).first() == s.first());
        assert(s.push(p).drop_first() =~= s.drop_first().push(p));
        lemma_entries_bytes_snoc(s.drop_first(), p);
        assert(spec_entries_bytes(s.push(p)) =~= spec_entries_bytes(s) + spec_be_bytes(p.0.0)
            + p.1.bytes@);
    }
}

/// Encodes a bundle as its byte frame.
pub fn encode_bundle(b: &Bundle) -> (r: Vec<u8>)
    ensures
        r@ == spec_bundle_bytes(b.fs@, b.db@),
{
    let mut out: Vec<u8> = Vec::new();
    let nf = Uid::new(b.fs.len() as u64);
    let nf_bytes = nf.as_bytes();
    out.extend_from_slice(nf_bytes.as_slice());
    append_entries(&mut out, &b.fs);
    let nd = Uid::new(b.db.len() as u64);
    let nd_bytes = nd.as_bytes();
    out.extend_from_slice(nd_bytes.as_slice());
    append_entries(&mut out, &b.db);
    proof {
        assert(out@ =~= spec_bundle_bytes(b.fs@, b.db@));
    }
    out
}

/// Reads a big-endian 64-bit value at an offset.
pub(crate) fn be_u64_at(bytes: &[u8], off: usize) -> (r: u64)
    requires
        off + 8 <= bytes@.len(),
    ensures
        r == spec_be_u64(bytes@.subrange(off as int, off as int + 8)),
{
    let v = ((bytes[off] as u64) << 56) | ((bytes[off + 1] as u64) << 48) | ((bytes[off
        + 2] as u64) << 40) | ((bytes[off + 3] as u64) << 32) | ((bytes[off + 4] as u64) << 24) | ((
    bytes[off + 5] as u64) << 16) | ((bytes[off + 6] as u64) << 8) | (bytes[off + 7] as u64);
    proof {
        let s = bytes@.subrange(off as int, off as int + 8);
        assert(s[0] == bytes@[off as int] && s[1] == bytes@[off as int + 1] && s[2] == bytes@[off
            as int + 2] && s[3] == bytes@[off as int + 3] && s[4] == bytes@[off as int + 4] && s[5]
            == bytes@[off as int + 5] && s[6] == bytes@[off as int + 6] && s[7] == bytes@[off as int
            + 7]);
    }
    v
}

/// Reads 32 seed bytes at an offset.
pub(crate) fn seed_at(bytes: &[u8], off: usize) -> (r: Seed)
    requires
        off + 32 <= bytes@.len(),
    ensures
        r.bytes@ == bytes@.subrange(off as int, off as int + 32),
{
    let len = bytes.len();
    let mut arr = [0u8; 32];
    for i in 0..32usize
        invariant
            off + 32 <= len,
            len == bytes@.len(),
            forall|j: int| 0 <= j < i ==> arr@[j] == bytes@[off + j],
        decreases 32 - i,
    {
        arr[i] = bytes[off + i];
    }
    proof {
        assert(arr@ =~= bytes@.subrange(off as int, off as int + 32));
    }
    Seed { bytes: arr }
}

/// Parses one entry section into a seed map; fails on a repeated id.
fn parse_entries(bytes: &[u8], off: usize, n: usize) -> (r: Option<Seeds>)
    requires
        off + 40 * n <= bytes@.len(),
    ensures
        match r {
            Some(s) => {
                &&& entries_match(s@, spec_raw_entries(bytes@.skip(off as int), n as int))
                &&& spec_raw_distinct(spec_raw_entries(bytes@.skip(off as int), n as int))
            },
            None => !spec_raw_distinct(spec_raw_entries(bytes@.skip(off as int), n as int)),
        },
{
    let ghost raw = spec_raw_entries(bytes@.skip(off as int), n as int);
    let len = bytes.len();
    let mut s = Seeds::new();
    for i in 0..n
        invariant
            off + 40 * n <= len,
            len == bytes@.len(),
            raw == spec_raw_entries(bytes@.skip(off as int), n as int),
            entries_match(s@, raw.take(i as int)),
            spec_raw_distinct(raw.take(i as int)),
            forall|j: int| 0 <= j < i ==> s.map_view().dom().contains((#[trigger] raw[j]).0),
            forall|k: u64|
                s.map_view().dom().contains(k) ==> exists|j: int|
                    0 <= j < i && (#[trigger] raw[j]).0 == k,
        decreases n - i,
    {
        proof {
            assert(40 * (i as int) + 40 <= 40 * (n as int)) by (nonlinear_arith)
                requires
                    i < n,
            ;
        }
        let entry_off = off + 40 * i;
        let id = Uid::new(be_u64_at(bytes, entry_off));
        let seed = seed_at(bytes, entry_off + 8);
        proof {
            assert(bytes@.skip(off as int).subrange(40 * i as int, 40 * i as int + 8)
                =~= bytes@.subrange(entry_off as int, entry_off as int + 8));
            assert(bytes@.skip(off as int).subrange(40 * i as int + 8, 40 * i as int + 40)
                =~= bytes@.subrange(entry_off as int + 8, entry_off as int + 40));
            assert(raw[i as int].0 == id.spec_value());
            assert(raw[i as int].1 == seed.bytes@);
        }
        if s.contains(id) {
            proof {
                let j = choose|j: int| 0 <= j < i && (#[trigger] raw[j]).0 == id.spec_value();
                assert(raw[j].0 == raw[i as int].0);
                assert(!spec_raw_distinct(raw));
            }
            return None;
        }
        s.insert(id, seed);
        proof {
            assert(entries_match(s@, raw.take(i + 1)));
        }
    }
    proof {
        assert(raw.take(n as int) =~= raw);
    }
    Some(s)
}

/// Parses a bundle frame. The frame must be consumed exactly, and an id
/// may not repeat within a map.
pub fn parse_bundle(bytes: &[u8]) -> (r: Option<Bundle>)
    ensures
        match r {
            Some(b) => {
                &&& spec_parse_bundle(bytes@) is Some
                &&& entries_match(b.fs@, spec_parse_bundle(bytes@).unwrap().0)
                &&& entries_match(b.db@, spec_parse_bundle(bytes@).unwrap().1)
            },
            None => spec_parse_bundle(bytes@) is None,
        },
{
    let len = bytes.len();
    if len < 16 {
        return None;
    }
    let nf64 = be_u64_at(bytes, 0);
    if nf64 > ((len - 16) / 40) as u64 {
        proof {
            assert(bytes@.subrange(0, 8) == bytes@.subrange(0int, 8int));
            assert(len < 16 + 40 * (nf64 as int)) by (nonlinear_arith)
                requires
                    nf64 > ((len - 16) / 40) as u64,
                    len >= 16,
            ;
        }
        return None;
    }
    let nf = nf64 as usize;
    proof {
        assert(40 * nf <= len - 16) by (nonlinear_arith)
            requires
                nf <= (len - 16) / 40,
                len >= 16,
        ;
    }
    let db_count_off = 8 + 40 * nf;
    let nd64 = be_u64_at(bytes, db_count_off);
    let remaining = len - db_count_off - 8;
    if nd64 > (remaining / 40) as u64 || remaining % 40 != 0 || (remaining / 40) as u64 != nd64 {
        proof {
            assert(len != 16 + 40 * (nf as int) + 40 * (nd64 as int)) by (nonlinear_arith)
                requires
                    remaining == len - (8 + 40 * nf) - 8,
                    nd64 > (remaining / 40) as u64 || remaining % 40 != 0 || (remaining / 40) as u64
                        != nd64,
            ;
        }
        return None;
    }
    let nd = nd64 as usize;
    proof {
        assert(remaining == 40 * nd) by (nonlinear_arith)
            requires
                remaining % 40 == 0,
                remaining / 40 == nd,
        ;
        assert(len == 16 + 40 * (nf as int) + 40 * (nd as int));
    }
    let fs = match parse_entries(bytes, 8, nf) {
        Some(s) => s,
        None => {
            return None;
        },
    };
    let db = match parse_entries(bytes, 16 + 40 * nf, nd) {
        Some(s) => s,
        None => {
            return None;
        },
    };
    Some(Bundle { fs, db })
}

/// Encodes a private identity: the agreement key's 32 bytes, then the
/// signing key's 32 bytes.
pub fn encode_private(p: &Private) -> (r: Vec<u8>)
    ensures
        r@ == p.x_priv@ + p.ed_priv@,
{
    let mut out: Vec<u8> = Vec::new();
    out.extend_from_slice(p.x_priv.as_slice());
    out.extend_from_slice(p.ed_priv.as_slice());
    out
}

/// Parses a private identity from its 64-byte frame.
pub fn parse_private(bytes: &[u8]) -> (r: Option<Private>)
    ensures
        match r {
            Some(p) => bytes@.len() == 64 && p.x_priv@ == bytes@.subrange(0, 32) && p.ed_priv@
                == bytes@.subrange(32, 64),
            None => bytes@.len() != 64,
        },
{
    if bytes.len() != 64 {
        return None;
    }
    let x = seed_at(bytes, 0);
    let ed = seed_at(bytes, 32);
    Some(Private { x_priv: x.bytes, ed_priv: ed.bytes })
}

} // verus!
