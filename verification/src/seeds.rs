//! Seeds, seed maps, bundles, and the share data model.

use vstd::prelude::*;
use vstd::relations::sorted_by;
use vstd::seq_lib::*;

use crate::crypto;
use crate::id::{spec_be_bytes, Uid};
use crate::identity;

verus! {

/// Size of a seed in bytes.
pub const SEED_SIZE: usize = 32;

/// The key under which a bundle carries a namespace's root seed, and the id
/// of the filesystem root node.
pub const ROOT_ID: u64 = 0;

/// A 32-byte secret from which keys and further seeds are derived.
#[derive(Debug, Copy, Clone, PartialEq, Eq, Hash)]
pub struct Seed {
    pub bytes: [u8; SEED_SIZE],
}

impl Seed {
    /// A fresh random seed. Nothing is promised of a random value.
    pub fn generate() -> Self {
        Seed { bytes: crypto::random_bytes32() }
    }
}

/// All keys in an entry sequence are pairwise distinct.
pub open spec fn distinct_uid_keys(s: Seq<(Uid, Seed)>) -> bool {
    forall|m: int, n: int|
        0 <= m < n < s.len() ==> (#[trigger] s[m].0).spec_value() != (
        #[trigger] s[n].0).spec_value()
}

/// The mapping an entry sequence denotes: later entries win.
pub open spec fn seeds_map_of(s: Seq<(Uid, Seed)>) -> Map<u64, Seed>
    decreases s.len(),
{
    if s.len() == 0 {
        Map::empty()
    } else {
        seeds_map_of(s.drop_last()).insert(s.last().0.spec_value(), s.last().1)
    }
}

/// A key is in the denoted map exactly when some entry carries it.
pub proof fn lemma_seeds_map_dom(s: Seq<(Uid, Seed)>, k: u64)
    ensures
        seeds_map_of(s).dom().contains(k) <==> exists|i: int|
            0 <= i < s.len() && #[trigger] s[i].0.spec_value() == k,
    decreases s.len(),
{
    if s.len() > 0 {
        lemma_seeds_map_dom(s.drop_last(), k);
        if s.last().0.spec_value() == k {
            assert(s[s.len() - 1].0.spec_value() == k);
        } else if seeds_map_of(s.drop_last()).dom().contains(k) {
            let i = choose|i: int|
                0 <= i < s.drop_last().len() && #[trigger] s.drop_last()[i].0.spec_value() == k;
            assert(s[i].0.spec_value() == k);
        } else if exists|i: int| 0 <= i < s.len() && #[trigger] s[i].0.spec_value() == k {
            let i = choose|i: int| 0 <= i < s.len() && #[trigger] s[i].0.spec_value() == k;
            assert(0 <= i < s.len() - 1);
            assert(s.drop_last()[i].0.spec_value() == k);
        }
    }
}

/// In a sequence with pairwise distinct keys, the denoted map sends each
/// entry's key to that entry's seed.
pub proof fn lemma_seeds_map_index(s: Seq<(Uid, Seed)>, i: int)
    requires
        0 <= i < s.len(),
        forall|m: int, n: int|
            0 <= m < n < s.len() ==> (#[trigger] s[m].0).spec_value() != (#[trigger] s[n].0).spec_value(),
    ensures
        seeds_map_of(s).dom().contains(s[i].0.spec_value()),
        seeds_map_of(s)[s[i].0.spec_value()] == s[i].1,
    decreases s.len(),
{
    if i == s.len() - 1 {
        lemma_seeds_map_dom(s, s[i].0.spec_value());
    } else {
        assert(s.drop_last()[i] == s[i]);
        lemma_seeds_map_index(s.drop_last(), i);
        assert(s[s.len() - 1].0.spec_value() != s[i].0.spec_value());
    }
}

/// Removing the only entry with some key removes that key from the map.
proof fn lemma_seeds_map_remove(s: Seq<(Uid, Seed)>, i: int)
    requires
        0 <= i < s.len(),
        forall|m: int, n: int|
            0 <= m < n < s.len() ==> (#[trigger] s[m].0).spec_value() != (#[trigger] s[n].0).spec_value(),
    ensures
        seeds_map_of(s.remove(i)) =~= seeds_map_of(s).remove(s[i].0.spec_value()),
    decreases s.len(),
{
    let k = s[i].0.spec_value();
    if i == s.len() - 1 {
        assert(s.remove(i) =~= s.drop_last());
        lemma_seeds_map_dom(s.drop_last(), k);
    } else {
        assert(s.remove(i).drop_last() =~= s.drop_last().remove(i));
        assert(s.drop_last()[i] == s[i]);
        lemma_seeds_map_remove(s.drop_last(), i);
        assert(s.remove(i).last() == s.last());
    }
}

/// The byte values of a seed map.
pub open spec fn spec_seeds_bytes(m: Map<u64, Seed>) -> Map<u64, Seq<u8>> {
    Map::new(|k: u64| m.dom().contains(k), |k: u64| m[k].bytes@)
}

/// An id-to-seed map, keyed by unique [`Uid`]s.
#[derive(Debug, PartialEq, Eq)]
pub struct Seeds {
    entries: Vec<(Uid, Seed)>,
}

impl View for Seeds {
    type V = Seq<(Uid, Seed)>;

    closed spec fn view(&self) -> Seq<(Uid, Seed)> {
        self.entries@
    }
}

impl Seeds {
    /// All entry keys are pairwise distinct. Holds of every value of the
    /// type; recover it with `use_type_invariant`.
    #[verifier::type_invariant]
    pub open spec fn wf(self) -> bool {
        distinct_uid_keys(self@)
    }

    /// The mapping from raw id values to seeds.
    pub open spec fn map_view(self) -> Map<u64, Seed> {
        seeds_map_of(self@)
    }

    /// An empty map.
    pub fn new() -> (r: Self)
        ensures
            r@ == Seq::<(Uid, Seed)>::empty(),
            r.map_view() == Map::<u64, Seed>::empty(),
    {
        Seeds { entries: Vec::new() }
    }

    /// How many ids are held.
    pub fn len(&self) -> (r: usize)
        ensures
            r == self@.len(),
    {
        self.entries.len()
    }

    /// The entry at a position.
    pub fn at(&self, i: usize) -> (r: (Uid, Seed))
        requires
            i < self@.len(),
        ensures
            r == self@[i as int],
    {
        let p = &self.entries[i];
        (p.0, p.1)
    }

    /// The position of an id's entry, if the id is held.
    fn position(&self, id: Uid) -> (r: Option<usize>)
        ensures
            match r {
                Some(i) => i < self@.len() && self@[i as int].0.spec_value() == id.spec_value(),
                None => forall|i: int|
                    0 <= i < self@.len() ==> (#[trigger] self@[i].0).spec_value()
                        != id.spec_value(),
            },
    {
        let n = self.entries.len();
        for i in 0..n
            invariant
                n == self@.len(),
                forall|j: int|
                    0 <= j < i ==> (#[trigger] self@[j].0).spec_value() != id.spec_value(),
            decreases n - i,
        {
            if self.entries[i].0.value() == id.value() {
                return Some(i);
            }
        }
        None
    }

    /// The seed held for an id, if any.
    pub fn get(&self, id: Uid) -> (r: Option<Seed>)
        ensures
            match r {
                Some(seed) => self.map_view().dom().contains(id.spec_value())
                    && self.map_view()[id.spec_value()] == seed,
                None => !self.map_view().dom().contains(id.spec_value()),
            },
    {
        proof {
            use_type_invariant(self);
            lemma_seeds_map_dom(self@, id.spec_value());
        }
        match self.position(id) {
            Some(i) => {
                proof {
                    lemma_seeds_map_index(self@, i as int);
                }
                Some(self.entries[i].1)
            },
            None => None,
        }
    }

    /// Whether an id is held.
    pub fn contains(&self, id: Uid) -> (r: bool)
        ensures
            r == self.map_view().dom().contains(id.spec_value()),
    {
        self.get(id).is_some()
    }

    /// Binds an id to a seed, replacing any earlier binding.
    pub fn insert(&mut self, id: Uid, seed: Seed)
        ensures
            final(self).map_view() == old(self).map_view().insert(id.spec_value(), seed),
            !old(self).map_view().dom().contains(id.spec_value()) ==> final(self)@ == old(
                self,
            )@.push((id, seed)),
            final(self)@.len() <= old(self)@.len() + 1,
    {
        proof {
            use_type_invariant(&*self);
            lemma_seeds_map_dom(self@, id.spec_value());
        }
        let ghost s0 = self@;
        let pos = self.position(id);
        let mut entries: Vec<(Uid, Seed)> = Vec::new();
        std::mem::swap(&mut entries, &mut self.entries);
        match pos {
            Some(i) => {
                proof {
                    lemma_seeds_map_remove(s0, i as int);
                    assert forall|j: int| 0 <= j < s0.remove(i as int).len() implies (
                    #[trigger] s0.remove(i as int)[j].0).spec_value() != id.spec_value() by {
                        if j < i {
                            assert(s0.remove(i as int)[j] == s0[j]);
                        } else {
                            assert(s0.remove(i as int)[j] == s0[j + 1]);
                        }
                    }
                    assert forall|m: int, n: int| 0 <= m < n < s0.remove(i as int).len() implies (
                    #[trigger] s0.remove(i as int)[m].0).spec_value() != (#[trigger] s0.remove(
                        i as int,
                    )[n].0).spec_value() by {
                        assert(s0.remove(i as int)[m] == if m < i {
                            s0[m]
                        } else {
                            s0[m + 1]
                        });
                        assert(s0.remove(i as int)[n] == if n < i {
                            s0[n]
                        } else {
                            s0[n + 1]
                        });
                    }
                }
                let _ = entries.remove(i);
                entries.push((id, seed));
                proof {
                    assert(entries@.drop_last() =~= s0.remove(i as int));
                }
            },
            None => {
                entries.push((id, seed));
                proof {
                    assert(entries@.drop_last() =~= s0);
                }
            },
        }
        self.entries = entries;
        proof {
            assert(self.map_view() =~= old(self).map_view().insert(id.spec_value(), seed));
        }
    }

    /// An equal copy of the map.
    pub fn duplicate(&self) -> (r: Self)
        ensures
            r@ == self@,
    {
        proof {
            use_type_invariant(self);
        }
        let n = self.entries.len();
        let mut entries: Vec<(Uid, Seed)> = Vec::new();
        for i in 0..n
            invariant
                n == self@.len(),
                entries@ == self@.take(i as int),
            decreases n - i,
        {
            let p = &self.entries[i];
            entries.push((p.0, p.1));
            proof {
                assert(entries@ =~= self@.take(i + 1));
            }
        }
        proof {
            assert(entries@ =~= self@);
        }
        Seeds { entries }
    }

    /// The held ids, in entry order.
    pub fn keys(&self) -> (r: Vec<Uid>)
        ensures
            r@ == self@.map_values(|p: (Uid, Seed)| p.0),
    {
        let n = self.entries.len();
        let mut r: Vec<Uid> = Vec::new();
        for i in 0..n
            invariant
                n == self@.len(),
                r@ == self@.take(i as int).map_values(|p: (Uid, Seed)| p.0),
            decreases n - i,
        {
            r.push(self.entries[i].0);
            proof {
                assert(self@.take(i + 1).drop_last() =~= self@.take(i as int));
                assert(self@.take(i + 1).map_values(|p: (Uid, Seed)| p.0) =~= self@.take(
                    i as int,
                ).map_values(|p: (Uid, Seed)| p.0).push(self@[i as int].0));
            }
        }
        proof {
            assert(self@.take(n as int) =~= self@);
        }
        r
    }
}

/// The pair of id-to-seed maps a share carries: one for the filesystem, one
/// for the database. A key of [`ROOT_ID`] denotes the namespace's root seed.
#[derive(Debug, PartialEq, Eq)]
pub struct Bundle {
    pub fs: Seeds,
    pub db: Seeds,
}

impl Bundle {
    /// An empty bundle.
    pub fn new() -> (r: Self)
        ensures
            r.fs@ == Seq::<(Uid, Seed)>::empty(),
            r.db@ == Seq::<(Uid, Seed)>::empty(),
    {
        Bundle { fs: Seeds::new(), db: Seeds::new() }
    }

    /// An equal copy of the bundle.
    pub fn duplicate(&self) -> (r: Self)
        ensures
            r.fs@ == self.fs@,
            r.db@ == self.db@,
    {
        Bundle { fs: self.fs.duplicate(), db: self.db.duplicate() }
    }

    /// Binds a filesystem id to a seed.
    pub fn set_fs(&mut self, id: Uid, seed: Seed)
        ensures
            final(self).fs.map_view() == old(self).fs.map_view().insert(id.spec_value(), seed),
            final(self).db == old(self).db,
            !old(self).fs.map_view().dom().contains(id.spec_value()) ==> final(self).fs@ == old(
                self,
            ).fs@.push((id, seed)),
            final(self).fs@.len() <= old(self).fs@.len() + 1,
    {
        self.fs.insert(id, seed);
    }

    /// Binds a database id to a seed.
    pub fn set_db(&mut self, id: Uid, seed: Seed)
        ensures
            final(self).db.map_view() == old(self).db.map_view().insert(id.spec_value(), seed),
            final(self).fs == old(self).fs,
            !old(self).db.map_view().dom().contains(id.spec_value()) ==> final(self).db@ == old(
                self,
            ).db@.push((id, seed)),
            final(self).db@.len() <= old(self).db@.len() + 1,
    {
        self.db.insert(id, seed);
    }
}

/// The order by which id lists are normalized before hashing.
pub open spec fn uid_leq() -> spec_fn(Uid, Uid) -> bool {
    |a: Uid, b: Uid| a.0 <= b.0
}

/// Types whose values can produce a sorted copy of themselves.
pub trait Sorted {
    type Item;

    fn sorted(&self) -> Vec<Self::Item>;
}

impl Sorted for Vec<Uid> {
    type Item = Uid;

    fn sorted(&self) -> Vec<Uid> {
        sort_uids(self)
    }
}

/// A sorted copy of an id list: ascending by raw value, with the same ids.
pub fn sort_uids(ids: &Vec<Uid>) -> (r: Vec<Uid>)
    ensures
        r@ == ids@.sort_by(uid_leq()),
{
    broadcast use vstd::seq_lib::group_to_multiset_ensures;

    let n = ids.len();
    let mut r: Vec<Uid> = Vec::new();
    proof {
        assert(ids@.take(0) =~= Seq::<Uid>::empty());
    }
    for i in 0..n
        invariant
            n == ids@.len(),
            sorted_by(r@, uid_leq()),
            r@.to_multiset() == ids@.take(i as int).to_multiset(),
        decreases n - i,
    {
        let ghost r0 = r@;
        let x = ids[i];
        let mut k: usize = 0;
        while k < r.len() && r[k].value() <= x.value()
            invariant
                k <= r@.len(),
                r@ == r0,
                forall|j: int| 0 <= j < k ==> (#[trigger] r@[j]).0 <= x.0,
            decreases r@.len() - k,
        {
            k += 1;
        }
        proof {
            assert(k == r0.len() || r0[k as int].0 > x.0);
        }
        r.insert(k, x);
        proof {
            broadcast use vstd::multiset::group_multiset_axioms;

            assert forall|p: int, q: int| 0 <= p < q < r@.len() implies uid_leq()(
                r@[p],
                r@[q],
            ) by {
                if q < k {
                    assert(r@[p] == r0[p] && r@[q] == r0[q]);
                    assert(uid_leq()(r0[p], r0[q]));
                } else if q == k {
                    assert(r@[p] == r0[p] && r@[q] == x);
                } else if p == k {
                    assert(r@[q] == r0[q - 1] && r@[p] == x);
                    assert(k < r0.len());
                    assert(r0[k as int].0 > x.0);
                    if q - 1 > k {
                        assert(uid_leq()(r0[k as int], r0[q - 1]));
                    }
                } else if p < k {
                    assert(r@[p] == r0[p] && r@[q] == r0[q - 1]);
                    assert(uid_leq()(r0[p], r0[q - 1]));
                } else {
                    assert(r@[p] == r0[p - 1] && r@[q] == r0[q - 1]);
                    assert(uid_leq()(r0[p - 1], r0[q - 1]));
                }
            }
            assert(r@ == r0.insert(k as int, x));
            to_multiset_insert(r0, k as int, x);
            assert(r@.to_multiset() =~= r0.to_multiset().insert(x));
            assert(ids@.take(i + 1) =~= ids@.take(i as int).push(x));
            to_multiset_build(ids@.take(i as int), x);
            assert(ids@.take(i + 1).to_multiset() == ids@.take(i as int).push(x).to_multiset());
            assert(r@.to_multiset() == ids@.take(i + 1).to_multiset());
        }
    }
    proof {
        assert(ids@.take(n as int) =~= ids@);
        ids@.lemma_sort_by_ensures(uid_leq());
        lemma_sorted_unique(r@, ids@.sort_by(uid_leq()), uid_leq());
    }
    r
}

/// The ascending order on raw id values.
pub open spec fn u64_leq() -> spec_fn(u64, u64) -> bool {
    |a: u64, b: u64| a <= b
}

/// A sorted copy of a raw id list: ascending, with the same values.
pub fn sort_u64s(xs: &Vec<u64>) -> (r: Vec<u64>)
    ensures
        r@ == xs@.sort_by(u64_leq()),
{
    broadcast use vstd::seq_lib::group_to_multiset_ensures;

    let n = xs.len();
    let mut r: Vec<u64> = Vec::new();
    proof {
        assert(xs@.take(0) =~= Seq::<u64>::empty());
    }
    for i in 0..n
        invariant
            n == xs@.len(),
            sorted_by(r@, u64_leq()),
            r@.to_multiset() == xs@.take(i as int).to_multiset(),
        decreases n - i,
    {
        let ghost r0 = r@;
        let x = xs[i];
        let mut k: usize = 0;
        while k < r.len() && r[k] <= x
            invariant
                k <= r@.len(),
                r@ == r0,
                forall|j: int| 0 <= j < k ==> (#[trigger] r@[j]) <= x,
            decreases r@.len() - k,
        {
            k += 1;
        }
        proof {
            assert(k == r0.len() || r0[k as int] > x);
        }
        r.insert(k, x);
        proof {
            assert forall|p: int, q: int| 0 <= p < q < r@.len() implies u64_leq()(
                r@[p],
                r@[q],
            ) by {
                if q < k {
                    assert(r@[p] == r0[p] && r@[q] == r0[q]);
                    assert(u64_leq()(r0[p], r0[q]));
                } else if q == k {
                    assert(r@[p] == r0[p] && r@[q] == x);
                } else if p == k {
                    assert(r@[q] == r0[q - 1] && r@[p] == x);
                    assert(k < r0.len());
                    assert(r0[k as int] > x);
                    if q - 1 > k {
                        assert(u64_leq()(r0[k as int], r0[q - 1]));
                    }
                } else if p < k {
                    assert(r@[p] == r0[p] && r@[q] == r0[q - 1]);
                    assert(u64_leq()(r0[p], r0[q - 1]));
                } else {
                    assert(r@[p] == r0[p - 1] && r@[q] == r0[q - 1]);
                    assert(u64_leq()(r0[p - 1], r0[q - 1]));
                }
            }
            assert(r@ == r0.insert(k as int, x));
            to_multiset_insert(r0, k as int, x);
            assert(r@.to_multiset() =~= r0.to_multiset().insert(x));
            assert(xs@.take(i + 1) =~= xs@.take(i as int).push(x));
            to_multiset_build(xs@.take(i as int), x);
            assert(xs@.take(i + 1).to_multiset() == xs@.take(i as int).push(x).to_multiset());
            assert(r@.to_multiset() == xs@.take(i + 1).to_multiset());
        }
    }
    proof {
        assert(xs@.take(n as int) =~= xs@);
        xs@.lemma_sort_by_ensures(u64_leq());
        lemma_sorted_unique(r@, xs@.sort_by(u64_leq()), u64_leq());
    }
    r
}

/// A 32-byte digest value.
#[derive(Debug, Copy, Clone, PartialEq, Eq)]
pub struct Digest {
    pub bytes: [u8; 32],
}

impl Digest {
    /// The digest's bytes.
    pub fn as_bytes(&self) -> (r: &[u8; 32])
        ensures
            r@ == self.bytes@,
    {
        &self.bytes
    }
}

/// The concatenated big-endian bytes of an id list.
pub open spec fn spec_ids_bytes(ids: Seq<Uid>) -> Seq<u8>
    decreases ids.len(),
{
    if ids.len() == 0 {
        Seq::empty()
    } else {
        spec_be_bytes(ids.first().0) + spec_ids_bytes(ids.drop_first())
    }
}

/// Appending an id appends its bytes.
pub proof fn lemma_ids_bytes_push(ids: Seq<Uid>, x: Uid)
    ensures
        spec_ids_bytes(ids.push(x)) == spec_ids_bytes(ids) + spec_be_bytes(x.0),
    decreases ids.len(),
{
    if ids.len() == 0 {
        assert(ids.push(x).first() == x);
        assert(ids.push(x).drop_first() =~= Seq::<Uid>::empty());
        assert(spec_ids_bytes(ids.push(x)) == spec_be_bytes(x.0) + spec_ids_bytes(
            Seq::<Uid>::empty(),
        ));
        assert(spec_be_bytes(x.0) + Seq::<u8>::empty() =~= spec_be_bytes(x.0));
        assert(spec_ids_bytes(ids) + spec_be_bytes(x.0) =~= spec_be_bytes(x.0));
    } else {
        assert(ids.push(x).drop_first() =~= ids.drop_first().push(x));
        lemma_ids_bytes_push(ids.drop_first(), x);
        assert(spec_ids_bytes(ids.push(x)) == spec_be_bytes(ids.first().0) + (spec_ids_bytes(
            ids.drop_first(),
        ) + spec_be_bytes(x.0)));
        assert(spec_be_bytes(ids.first().0) + (spec_ids_bytes(ids.drop_first()) + spec_be_bytes(
            x.0,
        )) =~= (spec_be_bytes(ids.first().0) + spec_ids_bytes(ids.drop_first())) + spec_be_bytes(
            x.0,
        ));
    }
}

/// Appends the big-endian bytes of every id, in order.
fn append_ids_bytes(out: &mut Vec<u8>, ids: &Vec<Uid>)
    ensures
        final(out)@ == old(out)@ + spec_ids_bytes(ids@),
{
    let ghost base = out@;
    let n = ids.len();
    proof {
        assert(ids@.take(0) =~= Seq::<Uid>::empty());
        assert(base + spec_ids_bytes(ids@.take(0)) =~= base);
    }
    for i in 0..n
        invariant
            n == ids@.len(),
            out@ == base + spec_ids_bytes(ids@.take(i as int)),
        decreases n - i,
    {
        let bytes = ids[i].as_bytes();
        out.extend_from_slice(bytes.as_slice());
        proof {
            assert(ids@.take(i + 1) =~= ids@.take(i as int).push(ids@[i as int]));
            lemma_ids_bytes_push(ids@.take(i as int), ids@[i as int]);
            assert(out@ =~= base + spec_ids_bytes(ids@.take(i + 1)));
        }
    }
    proof {
        assert(ids@.take(n as int) =~= ids@);
    }
}

/// The declared id lists of a share: who receives it, and which filesystem
/// and database ids it grants.
#[derive(Debug, Clone, PartialEq, Eq)]
pub struct Export {
    pub receiver: Uid,
    pub fs: Vec<Uid>,
    pub db: Vec<Uid>,
}

/// The bytes an export's digest is computed over: the sorted filesystem
/// ids, the sorted database ids, and the receiver, all as big-endian bytes.
pub open spec fn spec_export_hash_input(e: Export) -> Seq<u8> {
    spec_ids_bytes(e.fs@.sort_by(uid_leq())) + spec_ids_bytes(e.db@.sort_by(uid_leq()))
        + spec_be_bytes(e.receiver.0)
}

/// An export's digest: the SHA-256 hash of its normalized id lists.
pub open spec fn spec_export_digest(e: Export) -> Seq<u8> {
    crypto::sha256_of(spec_export_hash_input(e))
}

impl Export {
    /// The export describing a bundle: the bundle's key lists, in entry
    /// order, and the receiver.
    pub fn from_bundle(bundle: &Bundle, receiver_id: Uid) -> (r: Self)
        ensures
            r.receiver == receiver_id,
            r.fs@ == bundle.fs@.map_values(|p: (Uid, Seed)| p.0),
            r.db@ == bundle.db@.map_values(|p: (Uid, Seed)| p.0),
    {
        Export { receiver: receiver_id, fs: bundle.fs.keys(), db: bundle.db.keys() }
    }

    /// An equal copy of the export.
    pub fn duplicate(&self) -> (r: Self)
        ensures
            r.receiver == self.receiver,
            r.fs@ == self.fs@,
            r.db@ == self.db@,
    {
        let mut fs: Vec<Uid> = Vec::new();
        let mut db: Vec<Uid> = Vec::new();
        let n = self.fs.len();
        for i in 0..n
            invariant
                n == self.fs@.len(),
                fs@ == self.fs@.take(i as int),
            decreases n - i,
        {
            fs.push(self.fs[i]);
            proof {
                assert(fs@ =~= self.fs@.take(i + 1));
            }
        }
        let m = self.db.len();
        for i in 0..m
            invariant
                m == self.db@.len(),
                db@ == self.db@.take(i as int),
            decreases m - i,
        {
            db.push(self.db[i]);
            proof {
                assert(db@ =~= self.db@.take(i + 1));
            }
        }
        proof {
            assert(fs@ =~= self.fs@);
            assert(db@ =~= self.db@);
        }
        Export { receiver: self.receiver, fs, db }
    }

    /// The export's digest over its sorted id lists; sorting first makes
    /// the digest independent of the order the lists were emitted in.
    pub fn hash(&self) -> (r: Digest)
        ensures
            r.bytes@ == spec_export_digest(*self),
    {
        let sorted_fs = sort_uids(&self.fs);
        let sorted_db = sort_uids(&self.db);
        let mut input: Vec<u8> = Vec::new();
        append_ids_bytes(&mut input, &sorted_fs);
        append_ids_bytes(&mut input, &sorted_db);
        let receiver_bytes = self.receiver.as_bytes();
        input.extend_from_slice(receiver_bytes.as_slice());
        proof {
            assert(input@ =~= spec_export_hash_input(*self));
        }
        Digest { bytes: crypto::sha256(input.as_slice()) }
    }
}

/// The bytes a share's signature covers: the sender's id followed by the
/// export's digest.
pub open spec fn spec_ctx_to_sign(sender: identity::Public, export: Export) -> Seq<u8> {
    spec_be_bytes(sender.id.0) + spec_export_digest(export)
}

/// The signing context of a share: the sender's id bytes followed by the
/// export's digest bytes.
pub fn ctx_to_sign(sender: &identity::Public, export: &Export) -> (r: Vec<u8>)
    ensures
        r@ == spec_ctx_to_sign(*sender, *export),
{
    let mut out: Vec<u8> = Vec::new();
    let id_bytes = sender.id().as_bytes();
    out.extend_from_slice(id_bytes.as_slice());
    let digest = export.hash();
    out.extend_from_slice(digest.as_bytes().as_slice());
    proof {
        assert(out@ =~= spec_ctx_to_sign(*sender, *export));
    }
    out
}

/// A sender-signed, receiver-encrypted bundle with its declared id lists.
#[derive(Debug, Clone, PartialEq, Eq)]
pub struct LockedShare {
    pub sender: identity::Public,
    pub export: Export,
    pub payload: identity::Encrypted,
    pub sig: identity::Signature,
}

/// A validated, decrypted share held by its receiver.
#[derive(Debug, PartialEq, Eq)]
pub struct Import {
    pub sender: identity::Public,
    pub bundle: Bundle,
}

/// A pin-based invitation: the bundle sealed under an out-of-band pin,
/// with a freshly generated id for the invitee.
#[derive(Debug, Clone, PartialEq, Eq)]
pub struct Invite {
    pub user_id: Uid,
    pub sender: identity::Public,
    pub ref_src: String,
    pub payload: crate::password_lock::Lock,
    pub export: Export,
    pub sig: identity::Signature,
}

/// A pin-less invitation promise, acknowledged later once the invitee has
/// published a public key.
#[derive(Debug, Clone, PartialEq, Eq)]
pub struct InviteIntent {
    pub ref_src: String,
    pub sender: identity::Public,
    pub sig: identity::Signature,
    pub user_id: Uid,
    pub receiver: Option<identity::Public>,
    pub fs_ids: Option<Vec<Uid>>,
    pub db_ids: Option<Vec<crate::db::Index>>,
}

/// A finished intent: the real share, addressed to the invitee's key.
#[derive(Debug, Clone, PartialEq, Eq)]
pub struct FinishInviteIntent {
    pub ref_src: String,
    pub share: LockedShare,
}

/// What a pin-based invitee receives at signup: the sealed bundle and the
/// locked nodes of the shared subtrees.
#[derive(Debug, Clone, PartialEq, Eq)]
pub struct Welcome {
    pub user_id: Uid,
    pub sender: identity::Public,
    pub imports: crate::password_lock::Lock,
    pub sig: identity::Signature,
    pub nodes: Vec<crate::fs::LockedNode>,
}

impl Welcome {
    /// The welcome a server assembles from a pin-based invite and the
    /// locked nodes of the shared subtrees.
    pub fn from_invite(invite: &Invite, nodes: Vec<crate::fs::LockedNode>) -> (r: Welcome)
        ensures
            r.user_id == invite.user_id,
            r.sender == invite.sender,
            r.imports.salt == invite.payload.salt,
            r.imports.nonce == invite.payload.nonce,
            r.imports.ct@ == invite.payload.ct@,
            r.sig == invite.sig,
            r.nodes == nodes,
    {
        Welcome {
            user_id: invite.user_id,
            sender: invite.sender,
            imports: invite.payload.duplicate(),
            sig: invite.sig,
            nodes,
        }
    }
}

/// The concatenated ids of a database index list, as big-endian bytes.
pub open spec fn spec_index_ids_bytes(idxs: Seq<crate::db::Index>) -> Seq<u8>
    decreases idxs.len(),
{
    if idxs.len() == 0 {
        Seq::empty()
    } else {
        spec_be_bytes(crate::db::spec_index_id(idxs.first())) + spec_index_ids_bytes(
            idxs.drop_first(),
        )
    }
}

/// Appending an index appends its id bytes.
pub proof fn lemma_index_ids_bytes_push(idxs: Seq<crate::db::Index>, x: crate::db::Index)
    ensures
        spec_index_ids_bytes(idxs.push(x)) == spec_index_ids_bytes(idxs) + spec_be_bytes(
            crate::db::spec_index_id(x),
        ),
    decreases idxs.len(),
{
    if idxs.len() == 0 {
        assert(idxs.push(x).first() == x);
        assert(idxs.push(x).drop_first() =~= Seq::<crate::db::Index>::empty());
        assert(spec_index_ids_bytes(idxs.push(x)) == spec_be_bytes(crate::db::spec_index_id(x))
            + spec_index_ids_bytes(Seq::<crate::db::Index>::empty()));
        assert(spec_be_bytes(crate::db::spec_index_id(x)) + Seq::<u8>::empty() =~= spec_be_bytes(
            crate::db::spec_index_id(x),
        ));
        assert(spec_index_ids_bytes(idxs) + spec_be_bytes(crate::db::spec_index_id(x))
            =~= spec_be_bytes(crate::db::spec_index_id(x)));
    } else {
        assert(idxs.push(x).first() == idxs.first());
        assert(idxs.push(x).drop_first() =~= idxs.drop_first().push(x));
        lemma_index_ids_bytes_push(idxs.drop_first(), x);
        assert(spec_index_ids_bytes(idxs.push(x)) == spec_be_bytes(
            crate::db::spec_index_id(idxs.first()),
        ) + (spec_index_ids_bytes(idxs.drop_first()) + spec_be_bytes(
            crate::db::spec_index_id(x),
        )));
        assert(spec_be_bytes(crate::db::spec_index_id(idxs.first())) + (spec_index_ids_bytes(
            idxs.drop_first(),
        ) + spec_be_bytes(crate::db::spec_index_id(x))) =~= (spec_be_bytes(
            crate::db::spec_index_id(idxs.first()),
        ) + spec_index_ids_bytes(idxs.drop_first())) + spec_be_bytes(
            crate::db::spec_index_id(x),
        ));
    }
}

/// The bytes an invite intent's signature covers: the sender's id, the
/// contact string, the invitee's id, and the requested id lists.
pub open spec fn spec_intent_ctx(
    sender: u64,
    ref_src: Seq<char>,
    user_id: u64,
    fs_ids: Option<Seq<Uid>>,
    db_ids: Option<Seq<crate::db::Index>>,
) -> Seq<u8> {
    spec_be_bytes(sender) + vstd::utf8::encode_utf8(ref_src) + spec_be_bytes(user_id) + (match fs_ids {
        Some(ids) => spec_ids_bytes(ids),
        None => Seq::empty(),
    }) + (match db_ids {
        Some(idxs) => spec_index_ids_bytes(idxs),
        None => Seq::empty(),
    })
}

impl InviteIntent {
    /// The signing context of an intent.
    pub fn ctx_to_sign(
        sender: &Uid,
        ref_src: &str,
        receiver: &Uid,
        fs_ids: Option<&[Uid]>,
        db_ids: Option<&[crate::db::Index]>,
    ) -> (r: Vec<u8>)
        ensures
            r@ == spec_intent_ctx(
                sender.spec_value(),
                ref_src@,
                receiver.spec_value(),
                match fs_ids {
                    Some(ids) => Some(ids@),
                    None => None,
                },
                match db_ids {
                    Some(idxs) => Some(idxs@),
                    None => None,
                },
            ),
    {
        let mut out: Vec<u8> = Vec::new();
        let sender_bytes = sender.as_bytes();
        out.extend_from_slice(sender_bytes.as_slice());
        out.extend_from_slice(ref_src.as_bytes());
        let receiver_bytes = receiver.as_bytes();
        out.extend_from_slice(receiver_bytes.as_slice());
        let ghost mid = out@;
        match fs_ids {
            Some(ids) => {
                let n = ids.len();
                proof {
                    assert(ids@.take(0) =~= Seq::<Uid>::empty());
                    assert(mid + spec_ids_bytes(ids@.take(0)) =~= mid);
                }
                for i in 0..n
                    invariant
                        n == ids@.len(),
                        out@ == mid + spec_ids_bytes(ids@.take(i as int)),
                    decreases n - i,
                {
                    let bytes = ids[i].as_bytes();
                    out.extend_from_slice(bytes.as_slice());
                    proof {
                        assert(ids@.take(i + 1) =~= ids@.take(i as int).push(ids@[i as int]));
                        lemma_ids_bytes_push(ids@.take(i as int), ids@[i as int]);
                        assert(out@ =~= mid + spec_ids_bytes(ids@.take(i + 1)));
                    }
                }
                proof {
                    assert(ids@.take(n as int) =~= ids@);
                }
            },
            None => {
                proof {
                    assert(out@ =~= mid + Seq::<u8>::empty());
                }
            },
        }
        let ghost mid2 = out@;
        match db_ids {
            Some(idxs) => {
                let n = idxs.len();
                proof {
                    assert(idxs@.take(0) =~= Seq::<crate::db::Index>::empty());
                    assert(mid2 + spec_index_ids_bytes(idxs@.take(0)) =~= mid2);
                }
                for i in 0..n
                    invariant
                        n == idxs@.len(),
                        out@ == mid2 + spec_index_ids_bytes(idxs@.take(i as int)),
                    decreases n - i,
                {
                    let id = idxs[i].as_id();
                    let bytes = id.as_bytes();
                    out.extend_from_slice(bytes.as_slice());
                    proof {
                        assert(idxs@.take(i + 1) =~= idxs@.take(i as int).push(idxs@[i as int]));
                        lemma_index_ids_bytes_push(idxs@.take(i as int), idxs@[i as int]);
                        assert(out@ =~= mid2 + spec_index_ids_bytes(idxs@.take(i + 1)));
                    }
                }
                proof {
                    assert(idxs@.take(n as int) =~= idxs@);
                }
            },
            None => {
                proof {
                    assert(out@ =~= mid2 + Seq::<u8>::empty());
                }
            },
        }
        proof {
            assert(out@ =~= spec_intent_ctx(
                sender.spec_value(),
                ref_src@,
                receiver.spec_value(),
                match fs_ids {
                    Some(ids) => Some(ids@),
                    None => None,
                },
                match db_ids {
                    Some(idxs) => Some(idxs@),
                    None => None,
                },
            ));
        }
        out
    }
}

} // verus!
