//! A user: identity, received and issued shares, and the share operations.

use vstd::prelude::*;

use crate::crypto;
use crate::db::{self, Index};
use crate::fs::{FileSystem, SpecNode};
use crate::id::Uid;
use crate::identity::{self, Identity};
use crate::seeds::{
    seeds_map_of, spec_seeds_bytes, Bundle, Export, Import, Seed, Seeds, ROOT_ID,
};

verus! {

/// The root owner's user id.
pub const GOD_ID: u64 = 0;

/// Errors surfaced by per-operation user calls.
#[derive(Debug, PartialEq, Eq, Clone, Copy)]
pub enum Error {
    /// Malformed serialized input.
    BadJson,
    /// The caller holds no seed for the requested operation.
    NoAccess,
    /// Authenticated decryption failed although a seed was available.
    BadKey,
}

/// A user: identity, received shares, issued shares, and the filesystem
/// view unlocked by the received shares.
#[derive(Debug, PartialEq, Eq)]
pub struct User {
    pub identity: Identity,
    pub imports: Vec<Import>,
    pub exports: Vec<Export>,
    pub fs: FileSystem,
}

/// The root of an identity's seed tree: the private keys expanded over
/// "root".
pub open spec fn spec_root_of_identity(p: identity::Private) -> Seq<u8> {
    crypto::hkdf_of(p.x_priv@ + p.ed_priv@, seq![114u8, 111u8, 111u8, 116u8])
}

/// A namespace seed: the identity root expanded over a label.
pub open spec fn spec_derive_label(p: identity::Private, label: Seq<u8>) -> Seq<u8> {
    crypto::hkdf_of(spec_root_of_identity(p), label)
}

/// The database root seed of an identity ("db").
pub open spec fn spec_db_seed(p: identity::Private) -> Seq<u8> {
    spec_derive_label(p, seq![100u8, 98u8])
}

/// The filesystem root seed of an identity ("fs").
pub open spec fn spec_fs_seed(p: identity::Private) -> Seq<u8> {
    spec_derive_label(p, seq![102u8, 115u8])
}

/// All database entries of a user's imports, in order.
pub open spec fn spec_db_entries(imports: Seq<Import>) -> Seq<(Uid, Seed)>
    decreases imports.len(),
{
    if imports.len() == 0 {
        Seq::empty()
    } else {
        spec_db_entries(imports.drop_last()) + imports.last().bundle.db@
    }
}

/// All filesystem entries of a user's imports, in order.
pub open spec fn spec_fs_entries(imports: Seq<Import>) -> Seq<(Uid, Seed)>
    decreases imports.len(),
{
    if imports.len() == 0 {
        Seq::empty()
    } else {
        spec_fs_entries(imports.drop_last()) + imports.last().bundle.fs@
    }
}

/// The database authority a user holds: the root owner holds the root
/// seed; anyone else holds the union of their imported seeds, later
/// imports winning.
pub open spec fn spec_user_db_map(
    p: identity::Private,
    uid: u64,
    imports: Seq<Import>,
) -> Map<u64, Seq<u8>> {
    if uid == GOD_ID {
        Map::<u64, Seq<u8>>::empty().insert(ROOT_ID, spec_db_seed(p))
    } else {
        spec_seeds_bytes(seeds_map_of(spec_db_entries(imports)))
    }
}

/// The filesystem authority a user holds, mirroring the database side.
pub open spec fn spec_user_fs_map(
    p: identity::Private,
    uid: u64,
    imports: Seq<Import>,
) -> Map<u64, Seq<u8>> {
    if uid == GOD_ID {
        Map::<u64, Seq<u8>>::empty().insert(ROOT_ID, spec_fs_seed(p))
    } else {
        spec_seeds_bytes(seeds_map_of(spec_fs_entries(imports)))
    }
}

/// The seed an authority map yields for a database index: an exact match,
/// or a derivation from the nearest held ancestor (table, then root).
pub open spec fn spec_db_lookup(m: Map<u64, Seq<u8>>, idx: Index) -> Option<Seq<u8>> {
    let id = db::spec_index_id(idx);
    if m.dom().contains(id) {
        Some(m[id])
    } else {
        match idx {
            Index::Table { table } => if m.dom().contains(ROOT_ID) {
                Some(db::spec_table_seed(m[ROOT_ID], table@))
            } else {
                None
            },
            Index::Column { table, column } => if m.dom().contains(db::spec_table_id(table@)) {
                Some(db::spec_column_seed_from_table(m[db::spec_table_id(table@)], column@))
            } else if m.dom().contains(ROOT_ID) {
                Some(db::spec_column_seed(m[ROOT_ID], table@, column@))
            } else {
                None
            },
        }
    }
}

/// What the root owner derives for an index, straight from the database
/// root seed.
pub open spec fn spec_god_derive(p: identity::Private, idx: Index) -> Seq<u8> {
    match idx {
        Index::Table { table } => db::spec_table_seed(spec_db_seed(p), table@),
        Index::Column { table, column } => db::spec_column_seed(spec_db_seed(p), table@, column@),
    }
}

/// The seed a user can produce for a database index: the root owner
/// always derives it; anyone else needs a held ancestor.
pub open spec fn spec_user_db_lookup(
    p: identity::Private,
    uid: u64,
    imports: Seq<Import>,
    idx: Index,
) -> Option<Seq<u8>> {
    if uid == GOD_ID {
        Some(spec_god_derive(p, idx))
    } else {
        spec_db_lookup(spec_seeds_bytes(seeds_map_of(spec_db_entries(imports))), idx)
    }
}

/// The seed the filesystem yields for a node id: the node must be known
/// and be a directory.
pub open spec fn spec_fs_grant(fsv: Seq<SpecNode>, id: u64) -> Option<Seq<u8>> {
    match crate::fs::spec_node_by_id(fsv, id) {
        Some(n) => match n.entry {
            crate::fs::SpecEntry::Dir { seed } => Some(seed),
            crate::fs::SpecEntry::File { .. } => None,
        },
        None => None,
    }
}

/// Whether a byte-seed map is exactly the filesystem selection a request
/// allows: for an explicit list, the ids the filesystem grants; with no
/// list, the user's whole filesystem authority.
pub open spec fn spec_fs_selection(
    m: Map<u64, Seq<u8>>,
    p: identity::Private,
    uid: u64,
    imports: Seq<Import>,
    fsv: Seq<SpecNode>,
    fs_ids: Option<Seq<Uid>>,
) -> bool {
    match fs_ids {
        Some(list) => {
            &&& forall|id: u64|
                m.dom().contains(id) <==> exists|i: int|
                    0 <= i < list.len() && (#[trigger] list[i]).spec_value() == id
                        && spec_fs_grant(fsv, id) is Some
            &&& forall|id: u64|
                #[trigger] m.dom().contains(id) ==> Some(m[id]) == spec_fs_grant(fsv, id)
        },
        None => m == spec_user_fs_map(p, uid, imports),
    }
}

/// Whether a byte-seed map is exactly the database selection a request
/// allows: for an explicit list, the indexes the user's authority can
/// produce; with no list, the whole authority. A selection never exceeds
/// what the user holds — the attenuation rule.
pub open spec fn spec_db_selection(
    m: Map<u64, Seq<u8>>,
    p: identity::Private,
    uid: u64,
    imports: Seq<Import>,
    db_ids: Option<Seq<Index>>,
) -> bool {
    match db_ids {
        Some(list) => {
            &&& forall|id: u64|
                m.dom().contains(id) <==> exists|i: int|
                    0 <= i < list.len() && db::spec_index_id(#[trigger] list[i]) == id
                        && spec_user_db_lookup(p, uid, imports, list[i]) is Some
            &&& forall|id: u64|
                #[trigger] m.dom().contains(id) ==> exists|i: int|
                    0 <= i < list.len() && db::spec_index_id(#[trigger] list[i]) == id && Some(
                        m[id],
                    ) == spec_user_db_lookup(p, uid, imports, list[i])
        },
        None => m == spec_user_db_map(p, uid, imports),
    }
}

/// The length of an optional list argument.
pub open spec fn opt_len(o: Option<&[Uid]>) -> int {
    match o {
        Some(l) => l@.len() as int,
        None => 0,
    }
}

/// The length of an optional index-list argument.
pub open spec fn opt_len_idx(o: Option<&[Index]>) -> int {
    match o {
        Some(l) => l@.len() as int,
        None => 0,
    }
}

/// How many entries a selected bundle map can hold: at most the request
/// list's length, or — with no list — one root entry or the whole union
/// of the imports.
pub open spec fn spec_bundle_cap(explicit: bool, listed: int, imports: Seq<Import>) -> int {
    if explicit {
        listed
    } else {
        1 + spec_fs_entries(imports).len() as int + spec_db_entries(imports).len() as int
    }
}

impl User {
    /// Whether this user is the root owner.
    pub fn is_god(&self) -> (r: bool)
        ensures
            r == (self.identity._pub.id.spec_value() == GOD_ID),
    {
        self.identity.public().is_god()
    }

    /// Derives a namespace seed from an identity: the private keys are
    /// expanded to the identity root, which is expanded over the label.
    pub fn derive_seed_with_label(identity: &identity::Private, label: &[u8]) -> (r: Seed)
        ensures
            r.bytes@ == spec_derive_label(*identity, label@),
    {
        let mut ikm: Vec<u8> = Vec::new();
        ikm.extend_from_slice(identity.x_priv.as_slice());
        ikm.extend_from_slice(identity.ed_priv.as_slice());
        let mut root_label: Vec<u8> = Vec::new();
        root_label.push(114);
        root_label.push(111);
        root_label.push(111);
        root_label.push(116);
        proof {
            assert(ikm@ =~= identity.x_priv@ + identity.ed_priv@);
            assert(root_label@ =~= seq![114u8, 111u8, 111u8, 116u8]);
        }
        let root = crypto::hkdf_expand32(ikm.as_slice(), root_label.as_slice());
        Seed { bytes: crypto::hkdf_expand32(root.as_slice(), label) }
    }

    /// The database root seed of an identity.
    pub fn db_seed(identity: &identity::Private) -> (r: Seed)
        ensures
            r.bytes@ == spec_db_seed(*identity),
    {
        let mut label: Vec<u8> = Vec::new();
        label.push(100);
        label.push(98);
        proof {
            assert(label@ =~= seq![100u8, 98u8]);
        }
        Self::derive_seed_with_label(identity, label.as_slice())
    }

    /// The filesystem root seed of an identity.
    pub fn fs_seed(identity: &identity::Private) -> (r: Seed)
        ensures
            r.bytes@ == spec_fs_seed(*identity),
    {
        let mut label: Vec<u8> = Vec::new();
        label.push(102);
        label.push(115);
        proof {
            assert(label@ =~= seq![102u8, 115u8]);
        }
        Self::derive_seed_with_label(identity, label.as_slice())
    }
}

/// The union of the database maps of a list of imports, later entries
/// winning.
pub fn db_union(imports: &Vec<Import>) -> (r: Seeds)
    ensures
        r.map_view() == seeds_map_of(spec_db_entries(imports@)),
        r@.len() <= spec_db_entries(imports@).len(),
{
    let mut r = Seeds::new();
    let n = imports.len();
    proof {
        assert(imports@.take(0) =~= Seq::<Import>::empty());
    }
    for k in 0..n
        invariant
            n == imports@.len(),
            r.map_view() == seeds_map_of(spec_db_entries(imports@.take(k as int))),
            r@.len() <= spec_db_entries(imports@.take(k as int)).len(),
        decreases n - k,
    {
        let ghost base = spec_db_entries(imports@.take(k as int));
        let bundle = &imports[k].bundle;
        let m = bundle.db.len();
        for j in 0..m
            invariant
                m == bundle.db@.len(),
                bundle.db@ == imports@[k as int].bundle.db@,
                r.map_view() == seeds_map_of(base + bundle.db@.take(j as int)),
                r@.len() <= base.len() + j,
            decreases m - j,
        {
            let (id, seed) = bundle.db.at(j);
            r.insert(id, seed);
            proof {
                assert((base + bundle.db@.take(j + 1)).drop_last() =~= base + bundle.db@.take(
                    j as int,
                ));
                assert((base + bundle.db@.take(j + 1)).last() == (id, seed));
            }
        }
        proof {
            assert(imports@.take(k + 1).drop_last() =~= imports@.take(k as int));
            assert(imports@.take(k + 1).last() == imports@[k as int]);
            assert(base + bundle.db@.take(m as int) =~= spec_db_entries(imports@.take(k + 1)));
        }
    }
    proof {
        assert(imports@.take(n as int) =~= imports@);
    }
    r
}

/// The union of the filesystem maps of a list of imports, later entries
/// winning.
pub fn fs_union(imports: &Vec<Import>) -> (r: Seeds)
    ensures
        r.map_view() == seeds_map_of(spec_fs_entries(imports@)),
        r@.len() <= spec_fs_entries(imports@).len(),
{
    let mut r = Seeds::new();
    let n = imports.len();
    proof {
        assert(imports@.take(0) =~= Seq::<Import>::empty());
    }
    for k in 0..n
        invariant
            n == imports@.len(),
            r.map_view() == seeds_map_of(spec_fs_entries(imports@.take(k as int))),
            r@.len() <= spec_fs_entries(imports@.take(k as int)).len(),
        decreases n - k,
    {
        let ghost base = spec_fs_entries(imports@.take(k as int));
        let bundle = &imports[k].bundle;
        let m = bundle.fs.len();
        for j in 0..m
            invariant
                m == bundle.fs@.len(),
                bundle.fs@ == imports@[k as int].bundle.fs@,
                r.map_view() == seeds_map_of(base + bundle.fs@.take(j as int)),
                r@.len() <= base.len() + j,
            decreases m - j,
        {
            let (id, seed) = bundle.fs.at(j);
            r.insert(id, seed);
            proof {
                assert((base + bundle.fs@.take(j + 1)).drop_last() =~= base + bundle.fs@.take(
                    j as int,
                ));
                assert((base + bundle.fs@.take(j + 1)).last() == (id, seed));
            }
        }
        proof {
            assert(imports@.take(k + 1).drop_last() =~= imports@.take(k as int));
            assert(imports@.take(k + 1).last() == imports@[k as int]);
            assert(base + bundle.fs@.take(m as int) =~= spec_fs_entries(imports@.take(k + 1)));
        }
    }
    proof {
        assert(imports@.take(n as int) =~= imports@);
    }
    r
}

/// The filesystem-selection invariant, up to a prefix of the request
/// list: the map holds exactly the granted ids seen so far.
pub open spec fn fs_sel_upto(
    m: Map<u64, Seq<u8>>,
    list: Seq<Uid>,
    upto: int,
    fsv: Seq<SpecNode>,
) -> bool {
    &&& forall|id: u64|
        m.dom().contains(id) <==> exists|j: int|
            0 <= j < upto && (#[trigger] list[j]).spec_value() == id && spec_fs_grant(fsv, id)
                is Some
    &&& forall|id: u64|
        #[trigger] m.dom().contains(id) ==> Some(m[id]) == spec_fs_grant(fsv, id)
}

/// One granted step preserves the filesystem-selection invariant.
proof fn lemma_fs_sel_step_ok(
    m_old: Map<u64, Seq<u8>>,
    m_new: Map<u64, Seq<u8>>,
    list: Seq<Uid>,
    i: int,
    fsv: Seq<SpecNode>,
    sb: Seq<u8>,
)
    requires
        fs_sel_upto(m_old, list, i, fsv),
        0 <= i < list.len(),
        spec_fs_grant(fsv, list[i].spec_value()) == Some(sb),
        m_new == m_old.insert(list[i].spec_value(), sb),
    ensures
        fs_sel_upto(m_new, list, i + 1, fsv),
{
    let idv = list[i].spec_value();
    assert forall|id: u64| m_new.dom().contains(id) implies exists|j: int|
        0 <= j < i + 1 && (#[trigger] list[j]).spec_value() == id && spec_fs_grant(fsv, id)
            is Some by {
        if id == idv {
            assert(0 <= i < i + 1 && list[i].spec_value() == id && spec_fs_grant(fsv, id)
                is Some);
        } else {
            assert(m_old.dom().contains(id));
            let j = choose|j: int|
                0 <= j < i && (#[trigger] list[j]).spec_value() == id && spec_fs_grant(fsv, id)
                    is Some;
            assert(0 <= j < i + 1 && list[j].spec_value() == id && spec_fs_grant(fsv, id)
                is Some);
        }
    }
    assert forall|id: u64|
        (exists|j: int|
            0 <= j < i + 1 && (#[trigger] list[j]).spec_value() == id && spec_fs_grant(fsv, id)
                is Some) implies m_new.dom().contains(id) by {
        let j = choose|j: int|
            0 <= j < i + 1 && (#[trigger] list[j]).spec_value() == id && spec_fs_grant(fsv, id)
                is Some;
        if j < i {
            assert(m_old.dom().contains(id));
        } else {
            assert(id == idv);
        }
    }
}

/// A denied step preserves the filesystem-selection invariant.
proof fn lemma_fs_sel_step_err(m: Map<u64, Seq<u8>>, list: Seq<Uid>, i: int, fsv: Seq<SpecNode>)
    requires
        fs_sel_upto(m, list, i, fsv),
        0 <= i < list.len(),
        spec_fs_grant(fsv, list[i].spec_value()) is None,
    ensures
        fs_sel_upto(m, list, i + 1, fsv),
{
    assert forall|id: u64|
        (exists|j: int|
            0 <= j < i + 1 && (#[trigger] list[j]).spec_value() == id && spec_fs_grant(fsv, id)
                is Some) implies m.dom().contains(id) by {
        let j = choose|j: int|
            0 <= j < i + 1 && (#[trigger] list[j]).spec_value() == id && spec_fs_grant(fsv, id)
                is Some;
        if j < i {
            assert(m.dom().contains(id));
        } else {
            assert(id == list[i].spec_value());
            assert(spec_fs_grant(fsv, id) is None);
        }
    }
}

/// The database-selection invariant, up to a prefix of the request list.
pub open spec fn db_sel_upto(
    m: Map<u64, Seq<u8>>,
    list: Seq<Index>,
    upto: int,
    p: identity::Private,
    uid: u64,
    imports: Seq<Import>,
) -> bool {
    &&& forall|id: u64|
        m.dom().contains(id) <==> exists|j: int|
            0 <= j < upto && db::spec_index_id(#[trigger] list[j]) == id && spec_user_db_lookup(
                p,
                uid,
                imports,
                list[j],
            ) is Some
    &&& forall|id: u64|
        #[trigger] m.dom().contains(id) ==> exists|j: int|
            0 <= j < upto && db::spec_index_id(#[trigger] list[j]) == id && Some(m[id])
                == spec_user_db_lookup(p, uid, imports, list[j])
}

/// One produced step preserves the database-selection invariant.
proof fn lemma_db_sel_step_ok(
    m_old: Map<u64, Seq<u8>>,
    m_new: Map<u64, Seq<u8>>,
    list: Seq<Index>,
    i: int,
    p: identity::Private,
    uid: u64,
    imports: Seq<Import>,
    sb: Seq<u8>,
)
    requires
        db_sel_upto(m_old, list, i, p, uid, imports),
        0 <= i < list.len(),
        spec_user_db_lookup(p, uid, imports, list[i]) == Some(sb),
        m_new == m_old.insert(db::spec_index_id(list[i]), sb),
    ensures
        db_sel_upto(m_new, list, i + 1, p, uid, imports),
{
    let idv = db::spec_index_id(list[i]);
    assert forall|id: u64| m_new.dom().contains(id) implies exists|j: int|
        0 <= j < i + 1 && db::spec_index_id(#[trigger] list[j]) == id && spec_user_db_lookup(
            p,
            uid,
            imports,
            list[j],
        ) is Some by {
        if id == idv {
            assert(0 <= i < i + 1 && db::spec_index_id(list[i]) == id && spec_user_db_lookup(
                p,
                uid,
                imports,
                list[i],
            ) is Some);
        } else {
            assert(m_old.dom().contains(id));
            let j = choose|j: int|
                0 <= j < i && db::spec_index_id(#[trigger] list[j]) == id && spec_user_db_lookup(
                    p,
                    uid,
                    imports,
                    list[j],
                ) is Some;
            assert(0 <= j < i + 1 && db::spec_index_id(list[j]) == id && spec_user_db_lookup(
                p,
                uid,
                imports,
                list[j],
            ) is Some);
        }
    }
    assert forall|id: u64|
        (exists|j: int|
            0 <= j < i + 1 && db::spec_index_id(#[trigger] list[j]) == id && spec_user_db_lookup(
                p,
                uid,
                imports,
                list[j],
            ) is Some) implies m_new.dom().contains(id) by {
        let j = choose|j: int|
            0 <= j < i + 1 && db::spec_index_id(#[trigger] list[j]) == id && spec_user_db_lookup(
                p,
                uid,
                imports,
                list[j],
            ) is Some;
        if j < i {
            assert(m_old.dom().contains(id));
        } else {
            assert(id == idv);
        }
    }
    assert forall|id: u64| #[trigger] m_new.dom().contains(id) implies exists|j: int|
        0 <= j < i + 1 && db::spec_index_id(#[trigger] list[j]) == id && Some(m_new[id])
            == spec_user_db_lookup(p, uid, imports, list[j]) by {
        if id == idv {
            assert(0 <= i < i + 1 && db::spec_index_id(list[i]) == id && Some(m_new[id])
                == spec_user_db_lookup(p, uid, imports, list[i]));
        } else {
            assert(m_old.dom().contains(id));
            let j = choose|j: int|
                0 <= j < i && db::spec_index_id(#[trigger] list[j]) == id && Some(m_old[id])
                    == spec_user_db_lookup(p, uid, imports, list[j]);
            assert(m_new[id] == m_old[id]);
            assert(0 <= j < i + 1 && db::spec_index_id(list[j]) == id && Some(m_new[id])
                == spec_user_db_lookup(p, uid, imports, list[j]));
        }
    }
}

/// A skipped step preserves the database-selection invariant.
proof fn lemma_db_sel_step_err(
    m: Map<u64, Seq<u8>>,
    list: Seq<Index>,
    i: int,
    p: identity::Private,
    uid: u64,
    imports: Seq<Import>,
)
    requires
        db_sel_upto(m, list, i, p, uid, imports),
        0 <= i < list.len(),
        spec_user_db_lookup(p, uid, imports, list[i]) is None,
    ensures
        db_sel_upto(m, list, i + 1, p, uid, imports),
{
    assert forall|id: u64|
        (exists|j: int|
            0 <= j < i + 1 && db::spec_index_id(#[trigger] list[j]) == id && spec_user_db_lookup(
                p,
                uid,
                imports,
                list[j],
            ) is Some) implies m.dom().contains(id) by {
        let j = choose|j: int|
            0 <= j < i + 1 && db::spec_index_id(#[trigger] list[j]) == id && spec_user_db_lookup(
                p,
                uid,
                imports,
                list[j],
            ) is Some;
        if j < i {
            assert(m.dom().contains(id));
        }
    }
    assert forall|id: u64| #[trigger] m.dom().contains(id) implies exists|j: int|
        0 <= j < i + 1 && db::spec_index_id(#[trigger] list[j]) == id && Some(m[id])
            == spec_user_db_lookup(p, uid, imports, list[j]) by {
        let j = choose|j: int|
            0 <= j < i && db::spec_index_id(#[trigger] list[j]) == id && Some(m[id])
                == spec_user_db_lookup(p, uid, imports, list[j]);
        assert(0 <= j < i + 1 && db::spec_index_id(list[j]) == id && Some(m[id])
            == spec_user_db_lookup(p, uid, imports, list[j]));
    }
}

/// Looks an index up in a held authority map: exact id first, then the
/// table seed, then the root seed.
fn map_db_lookup(eff: &Seeds, idx: &Index) -> (r: Option<Seed>)
    ensures
        match r {
            Some(s) => spec_db_lookup(spec_seeds_bytes(eff.map_view()), *idx) == Some(s.bytes@),
            None => spec_db_lookup(spec_seeds_bytes(eff.map_view()), *idx) is None,
        },
{
    let ghost m = spec_seeds_bytes(eff.map_view());
    let id = idx.as_id();
    if let Some(s) = eff.get(id) {
        proof {
            assert(m.dom().contains(id.spec_value()));
            assert(m[id.spec_value()] == s.bytes@);
        }
        return Some(s);
    }
    proof {
        assert(!m.dom().contains(db::spec_index_id(*idx)));
    }
    match idx {
        Index::Table { table } => {
            match eff.get(Uid::new(ROOT_ID)) {
                Some(root) => {
                    proof {
                        assert(m.dom().contains(ROOT_ID) && m[ROOT_ID] == root.bytes@);
                    }
                    Some(db::derive_table_seed_from_root(&root, table.as_str()))
                },
                None => {
                    proof {
                        assert(!m.dom().contains(ROOT_ID));
                    }
                    None
                },
            }
        },
        Index::Column { table, column } => {
            let table_id = db::id_for_table(table.as_str());
            match eff.get(table_id) {
                Some(ts) => {
                    proof {
                        assert(m.dom().contains(db::spec_table_id(table@)) && m[db::spec_table_id(
                            table@,
                        )] == ts.bytes@);
                    }
                    Some(db::derive_column_seed_from_table(&ts, column.as_str()))
                },
                None => {
                    proof {
                        assert(!m.dom().contains(db::spec_table_id(table@)));
                    }
                    match eff.get(Uid::new(ROOT_ID)) {
                        Some(root) => {
                            proof {
                                assert(m.dom().contains(ROOT_ID) && m[ROOT_ID] == root.bytes@);
                            }
                            Some(
                                db::derive_column_seed_from_root(
                                    &root,
                                    table.as_str(),
                                    column.as_str(),
                                ),
                            )
                        },
                        None => {
                            proof {
                                assert(!m.dom().contains(ROOT_ID));
                            }
                            None
                        },
                    }
                },
            }
        },
    }
}

/// The mathematical value of an optional id-list argument.
pub open spec fn opt_uids_view(o: Option<&[Uid]>) -> Option<Seq<Uid>> {
    match o {
        Some(l) => Some(l@),
        None => None,
    }
}

/// The mathematical value of an optional index-list argument.
pub open spec fn opt_idxs_view(o: Option<&[Index]>) -> Option<Seq<Index>> {
    match o {
        Some(l) => Some(l@),
        None => None,
    }
}

impl User {
    /// Selects the subset of the caller's authority to package for
    /// sharing. With no list, the whole authority is packaged; with a
    /// list, exactly the requested objects the caller can legitimately
    /// produce — an id the caller cannot produce is silently dropped,
    /// never upgraded.
    pub fn seeds_for_ids(&self, fs_ids: Option<&[Uid]>, db_ids: Option<&[Index]>) -> (r: Bundle)
        ensures
            spec_fs_selection(
                spec_seeds_bytes(r.fs.map_view()),
                self.identity._priv,
                self.identity._pub.id.spec_value(),
                self.imports@,
                self.fs@,
                opt_uids_view(fs_ids),
            ),
            spec_db_selection(
                spec_seeds_bytes(r.db.map_view()),
                self.identity._priv,
                self.identity._pub.id.spec_value(),
                self.imports@,
                opt_idxs_view(db_ids),
            ),
            r.fs@.len() <= spec_bundle_cap(fs_ids.is_some(), opt_len(fs_ids), self.imports@),
            r.db@.len() <= spec_bundle_cap(db_ids.is_some(), opt_len_idx(db_ids), self.imports@),
    {
        let ghost p = self.identity._priv;
        let ghost uid = self.identity._pub.id.spec_value();
        let ghost ims = self.imports@;
        let ghost fsv = self.fs@;
        let god = self.is_god();
        let mut bundle = Bundle::new();
        match fs_ids {
            Some(list) => {
                let n = list.len();
                proof {
                    assert(spec_seeds_bytes(bundle.fs.map_view()) =~= Map::<u64, Seq<u8>>::empty());
                    assert(fs_sel_upto(spec_seeds_bytes(bundle.fs.map_view()), list@, 0, fsv));
                }
                for i in 0..n
                    invariant
                        n == list@.len(),
                        fsv == self.fs@,
                        bundle.db@ == Seq::<(Uid, Seed)>::empty(),
                        bundle.fs@.len() <= i,
                        fs_sel_upto(
                            spec_seeds_bytes(bundle.fs.map_view()),
                            list@,
                            i as int,
                            fsv,
                        ),
                    decreases n - i,
                {
                    let ghost m_old = spec_seeds_bytes(bundle.fs.map_view());
                    match self.fs.share_node(list[i]) {
                        Ok(seed) => {
                            bundle.set_fs(list[i], seed);
                            proof {
                                assert(spec_seeds_bytes(bundle.fs.map_view()) =~= m_old.insert(
                                    list@[i as int].spec_value(),
                                    seed.bytes@,
                                ));
                                lemma_fs_sel_step_ok(
                                    m_old,
                                    spec_seeds_bytes(bundle.fs.map_view()),
                                    list@,
                                    i as int,
                                    fsv,
                                    seed.bytes@,
                                );
                            }
                        },
                        Err(_) => {
                            proof {
                                lemma_fs_sel_step_err(m_old, list@, i as int, fsv);
                            }
                        },
                    }
                }
                proof {
                    assert(fs_ids == Some(list));
                    assert(opt_uids_view(fs_ids) == Some(list@));
                    assert(fs_sel_upto(
                        spec_seeds_bytes(bundle.fs.map_view()),
                        list@,
                        list@.len() as int,
                        fsv,
                    ));
                    assert(spec_fs_selection(
                        spec_seeds_bytes(bundle.fs.map_view()),
                        p,
                        uid,
                        ims,
                        fsv,
                        opt_uids_view(fs_ids),
                    ));
                }
            },
            None => {
                if god {
                    let seed = Self::fs_seed(self.identity.private());
                    bundle.set_fs(Uid::new(ROOT_ID), seed);
                    proof {
                        assert(spec_seeds_bytes(bundle.fs.map_view()) =~= Map::<
                            u64,
                            Seq<u8>,
                        >::empty().insert(ROOT_ID, spec_fs_seed(p)));
                    }
                } else {
                    let uni = fs_union(&self.imports);
                    let m = uni.len();
                    proof {
                        assert(uni@.take(0) =~= Seq::<(Uid, Seed)>::empty());
                    }
                    for j in 0..m
                        invariant
                            m == uni@.len(),
                            bundle.db@ == Seq::<(Uid, Seed)>::empty(),
                            bundle.fs@.len() <= j,
                            bundle.fs.map_view() == seeds_map_of(uni@.take(j as int)),
                        decreases m - j,
                    {
                        let (id, seed) = uni.at(j);
                        bundle.set_fs(id, seed);
                        proof {
                            assert(uni@.take(j + 1).drop_last() =~= uni@.take(j as int));
                            assert(uni@.take(j + 1).last() == (id, seed));
                        }
                    }
                    proof {
                        assert(uni@.take(m as int) =~= uni@);
                        assert(bundle.fs.map_view() == uni.map_view());
                        assert(spec_seeds_bytes(bundle.fs.map_view()) == spec_user_fs_map(
                            p,
                            uid,
                            ims,
                        ));
                    }
                }
            },
        }
        let ghost fs_done = bundle.fs@;
        match db_ids {
            Some(list) => {
                let eff = db_union(&self.imports);
                let root_seed = Self::db_seed(self.identity.private());
                let n = list.len();
                proof {
                    assert(spec_seeds_bytes(bundle.db.map_view()) =~= Map::<u64, Seq<u8>>::empty());
                    assert(db_sel_upto(
                        spec_seeds_bytes(bundle.db.map_view()),
                        list@,
                        0,
                        p,
                        uid,
                        ims,
                    ));
                }
                for i in 0..n
                    invariant
                        n == list@.len(),
                        god == (uid == GOD_ID),
                        eff.map_view() == seeds_map_of(spec_db_entries(ims)),
                        root_seed.bytes@ == spec_db_seed(p),
                        ims == self.imports@,
                        bundle.fs@ == fs_done,
                        bundle.db@.len() <= i,
                        db_sel_upto(
                            spec_seeds_bytes(bundle.db.map_view()),
                            list@,
                            i as int,
                            p,
                            uid,
                            ims,
                        ),
                    decreases n - i,
                {
                    let ghost m_old = spec_seeds_bytes(bundle.db.map_view());
                    let idx = &list[i];
                    let got: Option<Seed> = if god {
                        let s = match idx {
                            Index::Table { table } => db::derive_table_seed_from_root(
                                &root_seed,
                                table.as_str(),
                            ),
                            Index::Column { table, column } => db::derive_column_seed_from_root(
                                &root_seed,
                                table.as_str(),
                                column.as_str(),
                            ),
                        };
                        proof {
                            assert(spec_user_db_lookup(p, uid, ims, list@[i as int]) == Some(
                                s.bytes@,
                            ));
                        }
                        Some(s)
                    } else {
                        map_db_lookup(&eff, idx)
                    };
                    match got {
                        Some(s) => {
                            let id = idx.as_id();
                            bundle.set_db(id, s);
                            proof {
                                assert(spec_seeds_bytes(bundle.db.map_view()) =~= m_old.insert(
                                    db::spec_index_id(list@[i as int]),
                                    s.bytes@,
                                ));
                                lemma_db_sel_step_ok(
                                    m_old,
                                    spec_seeds_bytes(bundle.db.map_view()),
                                    list@,
                                    i as int,
                                    p,
                                    uid,
                                    ims,
                                    s.bytes@,
                                );
                            }
                        },
                        None => {
                            proof {
                                lemma_db_sel_step_err(m_old, list@, i as int, p, uid, ims);
                            }
                        },
                    }
                }
            },
            None => {
                if god {
                    let seed = Self::db_seed(self.identity.private());
                    bundle.set_db(Uid::new(ROOT_ID), seed);
                    proof {
                        assert(spec_seeds_bytes(bundle.db.map_view()) =~= Map::<
                            u64,
                            Seq<u8>,
                        >::empty().insert(ROOT_ID, spec_db_seed(p)));
                        assert(bundle.fs@ == fs_done);
                    }
                } else {
                    let uni = db_union(&self.imports);
                    let m = uni.len();
                    proof {
                        assert(uni@.take(0) =~= Seq::<(Uid, Seed)>::empty());
                    }
                    for j in 0..m
                        invariant
                            m == uni@.len(),
                            bundle.fs@ == fs_done,
                            bundle.db@.len() <= j,
                            bundle.db.map_view() == seeds_map_of(uni@.take(j as int)),
                        decreases m - j,
                    {
                        let (id, seed) = uni.at(j);
                        bundle.set_db(id, seed);
                        proof {
                            assert(uni@.take(j + 1).drop_last() =~= uni@.take(j as int));
                            assert(uni@.take(j + 1).last() == (id, seed));
                        }
                    }
                    proof {
                        assert(uni@.take(m as int) =~= uni@);
                        assert(bundle.db.map_view() == uni.map_view());
                        assert(spec_seeds_bytes(bundle.db.map_view()) == spec_user_db_map(
                            p,
                            uid,
                            ims,
                        ));
                    }
                }
            },
        }
        proof {
            assert(spec_fs_selection(
                spec_seeds_bytes(bundle.fs.map_view()),
                p,
                uid,
                ims,
                fsv,
                opt_uids_view(fs_ids),
            ));
            assert(spec_db_selection(
                spec_seeds_bytes(bundle.db.map_view()),
                p,
                uid,
                ims,
                opt_idxs_view(db_ids),
            ));
        }
        bundle
    }
}

/// Whether a parsed bundle's ids are exactly the declared ids: their
/// sorted forms coincide (the multisets are equal).
pub open spec fn spec_share_ids_ok(raw: Seq<(u64, Seq<u8>)>, declared: Seq<Uid>) -> bool {
    raw.map_values(|q: (u64, Seq<u8>)| q.0).sort_by(crate::seeds::u64_leq())
        == declared.map_values(|u: Uid| u.spec_value()).sort_by(crate::seeds::u64_leq())
}

/// Whether unlock admits a share as an import for the holder of an
/// agreement key and an id: addressed to the id, decryptable, parseable,
/// signed by the sender over the declared export, and carrying exactly
/// the declared ids.
pub open spec fn accepts_import(xsk: Seq<u8>, pubid: u64, s: crate::seeds::LockedShare) -> bool {
    &&& s.export.receiver.spec_value() == pubid
    &&& identity::spec_asym_dec(xsk, s.payload) is Some
    &&& crate::codec::spec_parse_bundle(identity::spec_asym_dec(xsk, s.payload).unwrap()) is Some
    &&& crypto::ed_valid(
        s.sender.ed_pub@,
        crate::seeds::spec_ctx_to_sign(s.sender, s.export),
        s.sig.bytes@,
    )
    &&& spec_share_ids_ok(
        crate::codec::spec_parse_bundle(identity::spec_asym_dec(xsk, s.payload).unwrap()).unwrap().0,
        s.export.fs@,
    )
    &&& spec_share_ids_ok(
        crate::codec::spec_parse_bundle(identity::spec_asym_dec(xsk, s.payload).unwrap()).unwrap().1,
        s.export.db@,
    )
}

/// Whether unlock retains a share's export as one issued by the id's
/// holder: sent by that id, with a valid signature.
pub open spec fn accepts_export(pubid: u64, s: crate::seeds::LockedShare) -> bool {
    &&& s.sender.id.spec_value() == pubid
    &&& crypto::ed_valid(
        s.sender.ed_pub@,
        crate::seeds::spec_ctx_to_sign(s.sender, s.export),
        s.sig.bytes@,
    )
}

/// The import-admission predicate, as a filter.
pub open spec fn import_filter(xsk: Seq<u8>, pubid: u64) -> spec_fn(
    crate::seeds::LockedShare,
) -> bool {
    |s: crate::seeds::LockedShare| accepts_import(xsk, pubid, s)
}

/// The export-retention predicate, as a filter.
pub open spec fn export_filter(pubid: u64) -> spec_fn(crate::seeds::LockedShare) -> bool {
    |s: crate::seeds::LockedShare| accepts_export(pubid, s)
}

/// Whether an import carries a share's sender and decrypted bundle.
pub open spec fn import_matches(im: Import, s: crate::seeds::LockedShare, xsk: Seq<u8>) -> bool {
    &&& im.sender == s.sender
    &&& crate::codec::entries_match(
        im.bundle.fs@,
        crate::codec::spec_parse_bundle(identity::spec_asym_dec(xsk, s.payload).unwrap()).unwrap().0,
    )
    &&& crate::codec::entries_match(
        im.bundle.db@,
        crate::codec::spec_parse_bundle(identity::spec_asym_dec(xsk, s.payload).unwrap()).unwrap().1,
    )
}

/// Whether an export record carries a share's declared lists.
pub open spec fn export_matches(e: Export, s: crate::seeds::LockedShare) -> bool {
    &&& e.receiver == s.export.receiver
    &&& e.fs@ == s.export.fs@
    &&& e.db@ == s.export.db@
}

/// A share that is neither admissible as an import nor retained as an
/// export leaves the unlock outcome unchanged: appending it changes
/// neither filtered list.
pub proof fn lemma_forged_share_ignored(
    xsk: Seq<u8>,
    pubid: u64,
    shares: Seq<crate::seeds::LockedShare>,
    f: crate::seeds::LockedShare,
)
    requires
        !accepts_import(xsk, pubid, f),
        !accepts_export(pubid, f),
    ensures
        shares.push(f).filter(import_filter(xsk, pubid)) == shares.filter(
            import_filter(xsk, pubid),
        ),
        shares.push(f).filter(export_filter(pubid)) == shares.filter(export_filter(pubid)),
{
    reveal_with_fuel(Seq::filter, 2);
    assert(shares.push(f).drop_last() =~= shares);
    assert(shares.push(f).last() == f);
}

/// The raw key values of a seed map, in entry order.
fn key_values(s: &Seeds) -> (r: Vec<u64>)
    ensures
        r@ == s@.map_values(|p: (Uid, Seed)| p.0.spec_value()),
{
    let n = s.len();
    let mut r: Vec<u64> = Vec::new();
    for i in 0..n
        invariant
            n == s@.len(),
            r@ == s@.take(i as int).map_values(|p: (Uid, Seed)| p.0.spec_value()),
        decreases n - i,
    {
        let (id, _) = s.at(i);
        r.push(id.value());
        proof {
            assert(s@.take(i + 1) =~= s@.take(i as int).push(s@[i as int]));
            assert(s@.take(i + 1).map_values(|p: (Uid, Seed)| p.0.spec_value()) =~= s@.take(
                i as int,
            ).map_values(|p: (Uid, Seed)| p.0.spec_value()).push(s@[i as int].0.spec_value()));
        }
    }
    proof {
        assert(s@.take(n as int) =~= s@);
    }
    r
}

/// The raw values of an id list, in order.
fn uid_values(v: &Vec<Uid>) -> (r: Vec<u64>)
    ensures
        r@ == v@.map_values(|u: Uid| u.spec_value()),
{
    let n = v.len();
    let mut r: Vec<u64> = Vec::new();
    for i in 0..n
        invariant
            n == v@.len(),
            r@ == v@.take(i as int).map_values(|u: Uid| u.spec_value()),
        decreases n - i,
    {
        r.push(v[i].value());
        proof {
            assert(v@.take(i + 1) =~= v@.take(i as int).push(v@[i as int]));
            assert(v@.take(i + 1).map_values(|u: Uid| u.spec_value()) =~= v@.take(
                i as int,
            ).map_values(|u: Uid| u.spec_value()).push(v@[i as int].spec_value()));
        }
    }
    proof {
        assert(v@.take(n as int) =~= v@);
    }
    r
}

/// Whether two raw id lists are equal, element for element.
fn vec_u64_eq(a: &Vec<u64>, b: &Vec<u64>) -> (r: bool)
    ensures
        r == (a@ == b@),
{
    if a.len() != b.len() {
        proof {
            assert(a@ != b@);
        }
        return false;
    }
    let n = a.len();
    for i in 0..n
        invariant
            n == a@.len() == b@.len(),
            forall|j: int| 0 <= j < i ==> a@[j] == b@[j],
        decreases n - i,
    {
        if a[i] != b[i] {
            return false;
        }
    }
    proof {
        assert(a@ =~= b@);
    }
    true
}

/// Reconstructs a user's state from the server-delivered bundle of signed
/// shares: admissible shares become imports, shares this user signed
/// become exports, forged or damaged shares are silently dropped, and the
/// filesystem is rebuilt from the locked root nodes with the unlocked
/// authority.
pub fn unlock_with_params(
    _priv: &identity::Private,
    _pub: &identity::Public,
    shares: &[crate::seeds::LockedShare],
    roots: &[crate::fs::LockedNode],
) -> (r: Result<User, Error>)
    ensures
        r is Ok,
        ({
            let u = r.unwrap();
            let xsk = _priv.x_priv@;
            let pubid = _pub.id.spec_value();
            &&& u.identity._priv == *_priv
            &&& u.identity._pub == *_pub
            &&& u.imports@.len() == shares@.filter(import_filter(xsk, pubid)).len()
            &&& forall|k: int|
                0 <= k < u.imports@.len() ==> import_matches(
                    #[trigger] u.imports@[k],
                    shares@.filter(import_filter(xsk, pubid))[k],
                    xsk,
                )
            &&& u.exports@.len() == shares@.filter(export_filter(pubid)).len()
            &&& forall|k: int|
                0 <= k < u.exports@.len() ==> export_matches(
                    #[trigger] u.exports@[k],
                    shares@.filter(export_filter(pubid))[k],
                )
            &&& u.fs@ == crate::fs::spec_apply(
                Seq::<SpecNode>::empty(),
                spec_user_fs_map(*_priv, pubid, u.imports@),
                roots@.map_values(|ln: crate::fs::LockedNode| ln@),
            )
        }),
{
    let ghost xsk = _priv.x_priv@;
    let ghost pubid = _pub.id.spec_value();
    let my_id = _pub.id();
    let mut imports: Vec<Import> = Vec::new();
    let mut exports: Vec<Export> = Vec::new();
    let n = shares.len();
    proof {
        reveal_with_fuel(Seq::filter, 2);
        assert(shares@.take(0) =~= Seq::<crate::seeds::LockedShare>::empty());
    }
    for i in 0..n
        invariant
            n == shares@.len(),
            xsk == _priv.x_priv@,
            pubid == _pub.id.spec_value(),
            my_id == _pub.id,
            imports@.len() == shares@.take(i as int).filter(import_filter(xsk, pubid)).len(),
            forall|k: int|
                0 <= k < imports@.len() ==> import_matches(
                    #[trigger] imports@[k],
                    shares@.take(i as int).filter(import_filter(xsk, pubid))[k],
                    xsk,
                ),
            exports@.len() == shares@.take(i as int).filter(export_filter(pubid)).len(),
            forall|k: int|
                0 <= k < exports@.len() ==> export_matches(
                    #[trigger] exports@[k],
                    shares@.take(i as int).filter(export_filter(pubid))[k],
                ),
        decreases n - i,
    {
        let s = &shares[i];
        let ghost pre = shares@.take(i as int);
        let ghost old_imports = imports@;
        let ghost old_exports = exports@;
        proof {
            reveal_with_fuel(Seq::filter, 2);
            assert(shares@.take(i + 1).drop_last() =~= pre);
            assert(shares@.take(i + 1).last() == *s);
        }
        let mut admitted = false;
        if s.export.receiver.value() == my_id.value() {
            if let Some(bytes) = _priv.decrypt(&s.payload) {
                if let Some(bundle) = crate::codec::parse_bundle(bytes.as_slice()) {
                    let ctx = crate::seeds::ctx_to_sign(&s.sender, &s.export);
                    if s.sender.verify(&s.sig, ctx.as_slice()) {
                        let fs_keys = crate::seeds::sort_u64s(&key_values(&bundle.fs));
                        let fs_decl = crate::seeds::sort_u64s(&uid_values(&s.export.fs));
                        let db_keys = crate::seeds::sort_u64s(&key_values(&bundle.db));
                        let db_decl = crate::seeds::sort_u64s(&uid_values(&s.export.db));
                        let fs_ok = vec_u64_eq(&fs_keys, &fs_decl);
                        let db_ok = vec_u64_eq(&db_keys, &db_decl);
                        proof {
                            assert(identity::spec_asym_dec(xsk, s.payload) == Some(bytes@));
                            let parsed = crate::codec::spec_parse_bundle(
                                identity::spec_asym_dec(xsk, s.payload).unwrap(),
                            ).unwrap();
                            assert(crate::codec::entries_match(bundle.fs@, parsed.0));
                            assert(crate::codec::entries_match(bundle.db@, parsed.1));
                            assert forall|t: int| 0 <= t < bundle.fs@.len() implies (
                            #[trigger] bundle.fs@[t]).0.spec_value() == parsed.0[t].0 by {}
                            assert(bundle.fs@.map_values(|p: (Uid, Seed)| p.0.spec_value())
                                =~= parsed.0.map_values(|q: (u64, Seq<u8>)| q.0));
                            assert forall|t: int| 0 <= t < bundle.db@.len() implies (
                            #[trigger] bundle.db@[t]).0.spec_value() == parsed.1[t].0 by {}
                            assert(bundle.db@.map_values(|p: (Uid, Seed)| p.0.spec_value())
                                =~= parsed.1.map_values(|q: (u64, Seq<u8>)| q.0));
                            assert(fs_ok == spec_share_ids_ok(parsed.0, s.export.fs@));
                            assert(db_ok == spec_share_ids_ok(parsed.1, s.export.db@));
                        }
                        if fs_ok && db_ok {
                            proof {
                                assert(accepts_import(xsk, pubid, *s));
                            }
                            imports.push(Import { sender: s.sender, bundle });
                            admitted = true;
                        }
                    }
                }
            }
        }
        proof {
            reveal_with_fuel(Seq::filter, 2);
            let fimp = import_filter(xsk, pubid);
            if admitted {
                assert(fimp(*s));
                assert(shares@.take(i + 1).filter(fimp) == pre.filter(fimp).push(*s));
                assert(import_matches(imports@.last(), *s, xsk));
                assert forall|k: int| 0 <= k < imports@.len() implies import_matches(
                    #[trigger] imports@[k],
                    shares@.take(i + 1).filter(fimp)[k],
                    xsk,
                ) by {
                    if k < imports@.len() - 1 {
                        assert(imports@[k] == old_imports[k]);
                        assert(shares@.take(i + 1).filter(fimp)[k] == pre.filter(fimp)[k]);
                    } else {
                        assert(imports@[k] == imports@.last());
                        assert(shares@.take(i + 1).filter(fimp)[k] == *s);
                    }
                }
            } else {
                assert(!accepts_import(xsk, pubid, *s));
                assert(!fimp(*s));
                assert(shares@.take(i + 1).filter(fimp) == pre.filter(fimp));
            }
        }
        let mut retained = false;
        if s.sender.id().value() == my_id.value() {
            let ctx = crate::seeds::ctx_to_sign(&s.sender, &s.export);
            if s.sender.verify(&s.sig, ctx.as_slice()) {
                proof {
                    assert(accepts_export(pubid, *s));
                }
                exports.push(s.export.duplicate());
                retained = true;
            }
        }
        proof {
            reveal_with_fuel(Seq::filter, 2);
            let fexp = export_filter(pubid);
            if retained {
                assert(fexp(*s));
                assert(shares@.take(i + 1).filter(fexp) == pre.filter(fexp).push(*s));
                assert(export_matches(exports@.last(), *s));
                assert forall|k: int| 0 <= k < exports@.len() implies export_matches(
                    #[trigger] exports@[k],
                    shares@.take(i + 1).filter(fexp)[k],
                ) by {
                    if k < exports@.len() - 1 {
                        assert(exports@[k] == old_exports[k]);
                        assert(shares@.take(i + 1).filter(fexp)[k] == pre.filter(fexp)[k]);
                    } else {
                        assert(exports@[k] == exports@.last());
                        assert(shares@.take(i + 1).filter(fexp)[k] == *s);
                    }
                }
            } else {
                assert(!accepts_export(pubid, *s));
                assert(!fexp(*s));
                assert(shares@.take(i + 1).filter(fexp) == pre.filter(fexp));
            }
        }
    }
    proof {
        assert(shares@.take(n as int) =~= shares@);
    }
    let seeds = if _pub.is_god() {
        let mut seeds = Seeds::new();
        seeds.insert(Uid::new(ROOT_ID), User::fs_seed(_priv));
        seeds
    } else {
        fs_union(&imports)
    };
    proof {
        if pubid == GOD_ID {
            assert(spec_seeds_bytes(seeds.map_view()) =~= spec_user_fs_map(
                *_priv,
                pubid,
                imports@,
            ));
        } else {
            assert(spec_seeds_bytes(seeds.map_view()) == spec_user_fs_map(
                *_priv,
                pubid,
                imports@,
            ));
        }
    }
    let fs = FileSystem::from_locked_nodes(roots, &seeds);
    Ok(User { identity: Identity { _priv: *_priv, _pub: *_pub }, imports, exports, fs })
}

/// The mapping a raw entry list denotes: later entries win.
pub open spec fn raw_map_of(s: Seq<(u64, Seq<u8>)>) -> Map<u64, Seq<u8>>
    decreases s.len(),
{
    if s.len() == 0 {
        Map::empty()
    } else {
        raw_map_of(s.drop_last()).insert(s.last().0, s.last().1)
    }
}

/// Matching entry lists denote the same mapping.
pub proof fn lemma_raw_map_matches(s: Seq<(Uid, Seed)>, raw: Seq<(u64, Seq<u8>)>)
    requires
        crate::codec::entries_match(s, raw),
    ensures
        raw_map_of(raw) == spec_seeds_bytes(seeds_map_of(s)),
    decreases s.len(),
{
    if s.len() == 0 {
        assert(raw_map_of(raw) =~= spec_seeds_bytes(seeds_map_of(s)));
    } else {
        assert forall|t: int| 0 <= t < s.len() - 1 implies (#[trigger] s.drop_last()[t]).0.spec_value()
            == raw.drop_last()[t].0 && s.drop_last()[t].1.bytes@ == raw.drop_last()[t].1 by {
            assert(s.drop_last()[t] == s[t]);
            assert(raw.drop_last()[t] == raw[t]);
        }
        lemma_raw_map_matches(s.drop_last(), raw.drop_last());
        assert(s[s.len() - 1].0.spec_value() == raw[raw.len() - 1].0);
        assert(s[s.len() - 1].1.bytes@ == raw[raw.len() - 1].1);
        assert(raw_map_of(raw) =~= spec_seeds_bytes(seeds_map_of(s)));
    }
}

/// A user who is not the root owner can produce a seed for an index only
/// from something they already hold: the index's own seed, its table's
/// seed, or the database root seed. Authority never exceeds what was
/// imported.
pub proof fn lemma_attenuation(
    p: identity::Private,
    uid: u64,
    imports: Seq<Import>,
    idx: Index,
)
    requires
        uid != GOD_ID,
        spec_user_db_lookup(p, uid, imports, idx) is Some,
    ensures
        ({
            let m = spec_seeds_bytes(seeds_map_of(spec_db_entries(imports)));
            match idx {
                Index::Table { table } => m.dom().contains(db::spec_index_id(idx)) || m.dom().contains(
                    ROOT_ID,
                ),
                Index::Column { table, column } => m.dom().contains(db::spec_index_id(idx))
                    || m.dom().contains(db::spec_table_id(table@)) || m.dom().contains(ROOT_ID),
            }
        }),
{
}

/// A user who holds only the database root seed can produce any
/// requested index, derived downward from the root — the path a full
/// root share gives its receiver. The hypotheses keep the requested id
/// and, for a column, its table's id apart from the root key; that the
/// hashed ids never collide is a property of the digest, not of any
/// contract here.
pub proof fn lemma_root_holder_derives(
    p: identity::Private,
    uid: u64,
    imports: Seq<Import>,
    idx: Index,
    root_seed: Seq<u8>,
)
    requires
        uid != GOD_ID,
        spec_seeds_bytes(seeds_map_of(spec_db_entries(imports))).dom() =~= set![ROOT_ID],
        spec_seeds_bytes(seeds_map_of(spec_db_entries(imports)))[ROOT_ID] == root_seed,
        db::spec_index_id(idx) != ROOT_ID,
        idx matches Index::Column { table, .. } ==> db::spec_table_id(table@) != ROOT_ID,
    ensures
        spec_user_db_lookup(p, uid, imports, idx) == Some(
            match idx {
                Index::Table { table } => db::spec_table_seed(root_seed, table@),
                Index::Column { table, column } => db::spec_column_seed(
                    root_seed,
                    table@,
                    column@,
                ),
            },
        ),
{
}

impl User {
    /// Builds a signed, receiver-encrypted share of the selected seeds.
    /// Whoever holds the receiver's agreement key will have the share
    /// admitted at unlock, and its bundle holds exactly the selection the
    /// caller could produce.
    pub fn export_seeds_to_identity(
        &self,
        fs_ids: Option<&[Uid]>,
        db_ids: Option<&[Index]>,
        receiver: &identity::Public,
    ) -> (r: crate::seeds::LockedShare)
        requires
            identity::keypair_ok(self.identity._priv, self.identity._pub),
            opt_len(fs_ids) <= 0x100000,
            opt_len_idx(db_ids) <= 0x100000,
            spec_fs_entries(self.imports@).len() <= 0x100000,
            spec_db_entries(self.imports@).len() <= 0x100000,
        ensures
            r.sender == self.identity._pub,
            r.export.receiver == receiver.id,
            crypto::ed_valid(
                self.identity._pub.ed_pub@,
                crate::seeds::spec_ctx_to_sign(r.sender, r.export),
                r.sig.bytes@,
            ),
            forall|sk: Seq<u8>|
                receiver.x_pub@ == #[trigger] crypto::x_pk_of(sk) ==> accepts_import(
                    sk,
                    receiver.id.spec_value(),
                    r,
                ),
            forall|sk: Seq<u8>|
                receiver.x_pub@ == #[trigger] crypto::x_pk_of(sk) ==> {
                    let parsed = crate::codec::spec_parse_bundle(
                        identity::spec_asym_dec(sk, r.payload).unwrap(),
                    ).unwrap();
                    spec_fs_selection(
                        raw_map_of(parsed.0),
                        self.identity._priv,
                        self.identity._pub.id.spec_value(),
                        self.imports@,
                        self.fs@,
                        opt_uids_view(fs_ids),
                    ) && spec_db_selection(
                        raw_map_of(parsed.1),
                        self.identity._priv,
                        self.identity._pub.id.spec_value(),
                        self.imports@,
                        opt_idxs_view(db_ids),
                    )
                },
    {
        let bundle = self.seeds_for_ids(fs_ids, db_ids);
        let encoded = crate::codec::encode_bundle(&bundle);
        proof {
            crate::codec::lemma_entries_bytes_len(bundle.fs@);
            crate::codec::lemma_entries_bytes_len(bundle.db@);
        }
        let payload = receiver.encrypt(encoded.as_slice());
        let export = Export::from_bundle(&bundle, receiver.id());
        let ctx = crate::seeds::ctx_to_sign(self.identity.public(), &export);
        let sig = self.identity.private().sign(ctx.as_slice());
        let r = crate::seeds::LockedShare {
            sender: *self.identity.public(),
            export,
            payload,
            sig,
        };
        proof {
            use_type_invariant(&bundle.fs);
            use_type_invariant(&bundle.db);
            crate::codec::lemma_parse_encode(bundle.fs@, bundle.db@);
            let parsed = crate::codec::spec_parse_bundle(encoded@).unwrap();
            lemma_raw_map_matches(bundle.fs@, parsed.0);
            lemma_raw_map_matches(bundle.db@, parsed.1);
            assert forall|t: int| 0 <= t < bundle.fs@.len() implies (
            #[trigger] bundle.fs@[t]).0.spec_value() == parsed.0[t].0 by {}
            assert(bundle.fs@.map_values(|q: (Uid, Seed)| q.0.spec_value()) =~= parsed.0.map_values(
                |q: (u64, Seq<u8>)| q.0,
            ));
            assert forall|t: int| 0 <= t < bundle.db@.len() implies (
            #[trigger] bundle.db@[t]).0.spec_value() == parsed.1[t].0 by {}
            assert(bundle.db@.map_values(|q: (Uid, Seed)| q.0.spec_value()) =~= parsed.1.map_values(
                |q: (u64, Seq<u8>)| q.0,
            ));
            assert(r.export.fs@.map_values(|u: Uid| u.spec_value()) =~= bundle.fs@.map_values(
                |q: (Uid, Seed)| q.0.spec_value(),
            ));
            assert(r.export.db@.map_values(|u: Uid| u.spec_value()) =~= bundle.db@.map_values(
                |q: (Uid, Seed)| q.0.spec_value(),
            ));
            assert(spec_share_ids_ok(parsed.0, r.export.fs@));
            assert(spec_share_ids_ok(parsed.1, r.export.db@));
            assert forall|sk: Seq<u8>| receiver.x_pub@ == #[trigger] crypto::x_pk_of(
                sk,
            ) implies accepts_import(sk, receiver.id.spec_value(), r) by {
                assert(identity::spec_asym_dec(sk, r.payload) == Some(encoded@));
            }
            assert forall|sk: Seq<u8>| receiver.x_pub@ == #[trigger] crypto::x_pk_of(sk) implies {
                let parsed_sk = crate::codec::spec_parse_bundle(
                    identity::spec_asym_dec(sk, r.payload).unwrap(),
                ).unwrap();
                spec_fs_selection(
                    raw_map_of(parsed_sk.0),
                    self.identity._priv,
                    self.identity._pub.id.spec_value(),
                    self.imports@,
                    self.fs@,
                    opt_uids_view(fs_ids),
                ) && spec_db_selection(
                    raw_map_of(parsed_sk.1),
                    self.identity._priv,
                    self.identity._pub.id.spec_value(),
                    self.imports@,
                    opt_idxs_view(db_ids),
                )
            } by {
                assert(identity::spec_asym_dec(sk, r.payload) == Some(encoded@));
            }
        }
        r
    }

    /// Encrypts one database cell: a fresh salt, and the entry seed
    /// derived by the highest-authority path the caller holds (exact
    /// column seed, table seed, or root). Fails exactly when the caller
    /// holds no path to the column.
    pub fn encrypt_db_entry(&self, table: &str, pt: &[u8], column: &str) -> (r: Result<
        Vec<u8>,
        Error,
    >)
        requires
            pt@.len() < 0x10000000,
        ensures
            ({
                let idx = spec_user_db_lookup_names(
                    self.identity._priv,
                    self.identity._pub.id.spec_value(),
                    self.imports@,
                    table@,
                    column@,
                );
                match idx {
                    Some(cs) => r is Ok && db::spec_cell_dec(cs, r.unwrap()@) == Some(pt@),
                    None => r == Err::<Vec<u8>, Error>(Error::NoAccess),
                }
            }),
    {
        let col_seed = match self.column_seed_lookup(table, column) {
            Some(cs) => cs,
            None => {
                return Err(Error::NoAccess);
            },
        };
        Ok(db::cell_encrypt(&col_seed, pt))
    }

    /// Decrypts one database cell: the salt is read back, the entry seed
    /// re-derived by the highest-authority path held, and the ciphertext
    /// opened. A malformed cell, a missing path, and a failed
    /// authentication are told apart.
    pub fn decrypt_db_entry(&self, table: &str, cell: &[u8], column: &str) -> (r: Result<
        Vec<u8>,
        Error,
    >)
        ensures
            cell@.len() < 32 ==> r == Err::<Vec<u8>, Error>(Error::BadJson),
            ({
                let idx = spec_user_db_lookup_names(
                    self.identity._priv,
                    self.identity._pub.id.spec_value(),
                    self.imports@,
                    table@,
                    column@,
                );
                cell@.len() >= 32 ==> match idx {
                    None => r == Err::<Vec<u8>, Error>(Error::NoAccess),
                    Some(cs) => match db::spec_cell_dec(cs, cell@) {
                        Some(pt) => r is Ok && r.unwrap()@ == pt,
                        None => r == Err::<Vec<u8>, Error>(Error::BadKey),
                    },
                }
            }),
    {
        if cell.len() < 32 {
            return Err(Error::BadJson);
        }
        let col_seed = match self.column_seed_lookup(table, column) {
            Some(cs) => cs,
            None => {
                return Err(Error::NoAccess);
            },
        };
        match db::cell_decrypt(&col_seed, cell) {
            Some(pt) => Ok(pt),
            None => Err(Error::BadKey),
        }
    }

    /// The column seed the caller can produce for a (table, column) pair,
    /// by the highest-authority path held.
    fn column_seed_lookup(&self, table: &str, column: &str) -> (r: Option<Seed>)
        ensures
            match r {
                Some(s) => spec_user_db_lookup_names(
                    self.identity._priv,
                    self.identity._pub.id.spec_value(),
                    self.imports@,
                    table@,
                    column@,
                ) == Some(s.bytes@),
                None => spec_user_db_lookup_names(
                    self.identity._priv,
                    self.identity._pub.id.spec_value(),
                    self.imports@,
                    table@,
                    column@,
                ) is None,
            },
    {
        if self.is_god() {
            let root = Self::db_seed(self.identity.private());
            Some(db::derive_column_seed_from_root(&root, table, column))
        } else {
            let idx = Index::Column { table: table.to_owned(), column: column.to_owned() };
            let eff = db_union(&self.imports);
            let r = map_db_lookup(&eff, &idx);
            proof {
                assert(idx matches Index::Column { table: t, column: c } && t@ == table@ && c@
                    == column@);
            }
            r
        }
    }
}

/// The mathematical value of an optional owned id list.
pub open spec fn opt_vec_uids_view(o: Option<Vec<Uid>>) -> Option<Seq<Uid>> {
    match o {
        Some(v) => Some(v@),
        None => None,
    }
}

/// The mathematical value of an optional owned index list.
pub open spec fn opt_vec_idxs_view(o: Option<Vec<Index>>) -> Option<Seq<Index>> {
    match o {
        Some(v) => Some(v@),
        None => None,
    }
}

/// Whether a user honors an invite intent: it carries a receiver key, it
/// was issued by this user, and its signature covers its original
/// context.
pub open spec fn spec_intent_ok(selfid: u64, it: crate::seeds::InviteIntent) -> bool {
    &&& it.receiver is Some
    &&& it.sender.id.spec_value() == selfid
    &&& crypto::ed_valid(
        it.sender.ed_pub@,
        crate::seeds::spec_intent_ctx(
            it.sender.id.spec_value(),
            it.ref_src@,
            it.user_id.spec_value(),
            opt_vec_uids_view(it.fs_ids),
            opt_vec_idxs_view(it.db_ids),
        ),
        it.sig.bytes@,
    )
}

/// The intent-honoring predicate, as a filter.
pub open spec fn intent_filter(selfid: u64) -> spec_fn(crate::seeds::InviteIntent) -> bool {
    |it: crate::seeds::InviteIntent| spec_intent_ok(selfid, it)
}

/// Whether a finished intent carries a share for the intent's receiver,
/// issued and signed by this user.
pub open spec fn finish_matches(
    f: crate::seeds::FinishInviteIntent,
    it: crate::seeds::InviteIntent,
    selfpub: identity::Public,
) -> bool {
    &&& f.ref_src@ == it.ref_src@
    &&& f.share.sender == selfpub
    &&& f.share.export.receiver == it.receiver.unwrap().id
    &&& crypto::ed_valid(
        selfpub.ed_pub@,
        crate::seeds::spec_ctx_to_sign(f.share.sender, f.share.export),
        f.share.sig.bytes@,
    )
    &&& forall|sk: Seq<u8>|
        it.receiver.unwrap().x_pub@ == #[trigger] crypto::x_pk_of(sk) ==> accepts_import(
            sk,
            it.receiver.unwrap().id.spec_value(),
            f.share,
        )
}

/// Whether an intent's requested lists are of shareable size.
pub open spec fn spec_intent_caps(it: crate::seeds::InviteIntent) -> bool {
    &&& match it.fs_ids {
        Some(v) => v@.len() <= 0x100000,
        None => true,
    }
    &&& match it.db_ids {
        Some(v) => v@.len() <= 0x100000,
        None => true,
    }
}

impl User {
    /// Builds a pin-based invitation: the selected seeds are sealed under
    /// the out-of-band pin, a fresh id is generated for the invitee, and
    /// the declared export is signed.
    pub fn invite_with_seeds_for_email_and_pin(
        &self,
        ref_src: &str,
        pin: &[u8],
        fs_ids: Option<&[Uid]>,
        db_ids: Option<&[Index]>,
    ) -> (r: crate::seeds::Invite)
        requires
            identity::keypair_ok(self.identity._priv, self.identity._pub),
            opt_len(fs_ids) <= 0x100000,
            opt_len_idx(db_ids) <= 0x100000,
            spec_fs_entries(self.imports@).len() <= 0x100000,
            spec_db_entries(self.imports@).len() <= 0x100000,
        ensures
            r.sender == self.identity._pub,
            r.ref_src@ == ref_src@,
            r.user_id == r.export.receiver,
            crypto::ed_valid(
                self.identity._pub.ed_pub@,
                crate::seeds::spec_ctx_to_sign(r.sender, r.export),
                r.sig.bytes@,
            ),
            crate::password_lock::spec_unlock(r.payload, pin@) is Some,
            ({
                let bytes = crate::password_lock::spec_unlock(r.payload, pin@).unwrap();
                let parsed = crate::codec::spec_parse_bundle(bytes);
                &&& parsed is Some
                &&& spec_share_ids_ok(parsed.unwrap().0, r.export.fs@)
                &&& spec_share_ids_ok(parsed.unwrap().1, r.export.db@)
                &&& spec_fs_selection(
                    raw_map_of(parsed.unwrap().0),
                    self.identity._priv,
                    self.identity._pub.id.spec_value(),
                    self.imports@,
                    self.fs@,
                    opt_uids_view(fs_ids),
                )
                &&& spec_db_selection(
                    raw_map_of(parsed.unwrap().1),
                    self.identity._priv,
                    self.identity._pub.id.spec_value(),
                    self.imports@,
                    opt_idxs_view(db_ids),
                )
            }),
    {
        let bundle = self.seeds_for_ids(fs_ids, db_ids);
        let encoded = crate::codec::encode_bundle(&bundle);
        proof {
            crate::codec::lemma_entries_bytes_len(bundle.fs@);
            crate::codec::lemma_entries_bytes_len(bundle.db@);
        }
        let payload = crate::password_lock::lock(encoded.as_slice(), pin);
        let user_id = Uid::generate();
        let export = Export::from_bundle(&bundle, user_id);
        let ctx = crate::seeds::ctx_to_sign(self.identity.public(), &export);
        let sig = self.identity.private().sign(ctx.as_slice());
        let r = crate::seeds::Invite {
            user_id,
            sender: *self.identity.public(),
            ref_src: ref_src.to_owned(),
            payload,
            export,
            sig,
        };
        proof {
            use_type_invariant(&bundle.fs);
            use_type_invariant(&bundle.db);
            crate::codec::lemma_parse_encode(bundle.fs@, bundle.db@);
            let parsed = crate::codec::spec_parse_bundle(encoded@).unwrap();
            lemma_raw_map_matches(bundle.fs@, parsed.0);
            lemma_raw_map_matches(bundle.db@, parsed.1);
            assert forall|t: int| 0 <= t < bundle.fs@.len() implies (
            #[trigger] bundle.fs@[t]).0.spec_value() == parsed.0[t].0 by {}
            assert(bundle.fs@.map_values(|q: (Uid, Seed)| q.0.spec_value()) =~= parsed.0.map_values(
                |q: (u64, Seq<u8>)| q.0,
            ));
            assert forall|t: int| 0 <= t < bundle.db@.len() implies (
            #[trigger] bundle.db@[t]).0.spec_value() == parsed.1[t].0 by {}
            assert(bundle.db@.map_values(|q: (Uid, Seed)| q.0.spec_value()) =~= parsed.1.map_values(
                |q: (u64, Seq<u8>)| q.0,
            ));
            assert(r.export.fs@.map_values(|u: Uid| u.spec_value()) =~= bundle.fs@.map_values(
                |q: (Uid, Seed)| q.0.spec_value(),
            ));
            assert(r.export.db@.map_values(|u: Uid| u.spec_value()) =~= bundle.db@.map_values(
                |q: (Uid, Seed)| q.0.spec_value(),
            ));
        }
        r
    }

    /// Emits an unsealed promise to share: the signature covers the
    /// contact string, the invitee's id and the requested lists; the
    /// receiver key is filled in later.
    pub fn start_invite_intent_with_seeds_for_ref_src(
        &self,
        ref_src: &str,
        user_id: Uid,
        fs_ids: Option<Vec<Uid>>,
        db_ids: Option<Vec<Index>>,
    ) -> (r: crate::seeds::InviteIntent)
        requires
            identity::keypair_ok(self.identity._priv, self.identity._pub),
        ensures
            r.sender == self.identity._pub,
            r.ref_src@ == ref_src@,
            r.user_id == user_id,
            r.receiver is None,
            opt_vec_uids_view(r.fs_ids) == opt_vec_uids_view(fs_ids),
            opt_vec_idxs_view(r.db_ids) == opt_vec_idxs_view(db_ids),
            crypto::ed_valid(
                self.identity._pub.ed_pub@,
                crate::seeds::spec_intent_ctx(
                    self.identity._pub.id.spec_value(),
                    ref_src@,
                    user_id.spec_value(),
                    opt_vec_uids_view(fs_ids),
                    opt_vec_idxs_view(db_ids),
                ),
                r.sig.bytes@,
            ),
    {
        let my_id = self.identity.id();
        let fs_arg: Option<&[Uid]> = match &fs_ids {
            Some(v) => Some(v.as_slice()),
            None => None,
        };
        let db_arg: Option<&[Index]> = match &db_ids {
            Some(v) => Some(v.as_slice()),
            None => None,
        };
        let ctx = crate::seeds::InviteIntent::ctx_to_sign(&my_id, ref_src, &user_id, fs_arg, db_arg);
        let sig = self.identity.private().sign(ctx.as_slice());
        crate::seeds::InviteIntent {
            ref_src: ref_src.to_owned(),
            sender: *self.identity.public(),
            sig,
            user_id,
            receiver: None,
            fs_ids,
            db_ids,
        }
    }

    /// Finishes the intents this user issued whose invitee has published
    /// a key: each verified intent becomes a real share addressed to the
    /// receiver. Intents that fail any check are silently skipped.
    pub fn finish_invite_intents(&self, intents: &[crate::seeds::InviteIntent]) -> (r: Vec<
        crate::seeds::FinishInviteIntent,
    >)
        requires
            identity::keypair_ok(self.identity._priv, self.identity._pub),
            spec_fs_entries(self.imports@).len() <= 0x100000,
            spec_db_entries(self.imports@).len() <= 0x100000,
            forall|j: int| 0 <= j < intents@.len() ==> spec_intent_caps(#[trigger] intents@[j]),
        ensures
            r@.len() == intents@.filter(
                intent_filter(self.identity._pub.id.spec_value()),
            ).len(),
            forall|k: int|
                0 <= k < r@.len() ==> finish_matches(
                    #[trigger] r@[k],
                    intents@.filter(intent_filter(self.identity._pub.id.spec_value()))[k],
                    self.identity._pub,
                ),
    {
        let ghost selfid = self.identity._pub.id.spec_value();
        let my_id = self.identity.id();
        let mut out: Vec<crate::seeds::FinishInviteIntent> = Vec::new();
        let n = intents.len();
        proof {
            reveal_with_fuel(Seq::filter, 2);
            assert(intents@.take(0) =~= Seq::<crate::seeds::InviteIntent>::empty());
        }
        for i in 0..n
            invariant
                n == intents@.len(),
                selfid == self.identity._pub.id.spec_value(),
                my_id == self.identity._pub.id,
                identity::keypair_ok(self.identity._priv, self.identity._pub),
                spec_fs_entries(self.imports@).len() <= 0x100000,
                spec_db_entries(self.imports@).len() <= 0x100000,
                forall|j: int| 0 <= j < intents@.len() ==> spec_intent_caps(#[trigger] intents@[j]),
                out@.len() == intents@.take(i as int).filter(intent_filter(selfid)).len(),
                forall|k: int|
                    0 <= k < out@.len() ==> finish_matches(
                        #[trigger] out@[k],
                        intents@.take(i as int).filter(intent_filter(selfid))[k],
                        self.identity._pub,
                    ),
            decreases n - i,
        {
            let it = &intents[i];
            let ghost pre = intents@.take(i as int);
            let ghost old_out = out@;
            proof {
                reveal_with_fuel(Seq::filter, 2);
                assert(intents@.take(i + 1).drop_last() =~= pre);
                assert(intents@.take(i + 1).last() == *it);
            }
            let mut honored = false;
            if it.sender.id().value() == my_id.value() {
                if let Some(receiver) = &it.receiver {
                    let fs_arg: Option<&[Uid]> = match &it.fs_ids {
                        Some(v) => Some(v.as_slice()),
                        None => None,
                    };
                    let db_arg: Option<&[Index]> = match &it.db_ids {
                        Some(v) => Some(v.as_slice()),
                        None => None,
                    };
                    let ctx = crate::seeds::InviteIntent::ctx_to_sign(
                        &it.sender.id(),
                        it.ref_src.as_str(),
                        &it.user_id,
                        fs_arg,
                        db_arg,
                    );
                    if it.sender.verify(&it.sig, ctx.as_slice()) {
                        proof {
                            assert(opt_uids_view(fs_arg) == opt_vec_uids_view(it.fs_ids));
                            assert(opt_idxs_view(db_arg) == opt_vec_idxs_view(it.db_ids));
                            assert(spec_intent_ok(selfid, *it));
                            assert(spec_intent_caps(intents@[i as int]));
                            assert(opt_len(fs_arg) <= 0x100000);
                            assert(opt_len_idx(db_arg) <= 0x100000);
                        }
                        let share = self.export_seeds_to_identity(fs_arg, db_arg, receiver);
                        out.push(
                            crate::seeds::FinishInviteIntent {
                                ref_src: it.ref_src.clone(),
                                share,
                            },
                        );
                        honored = true;
                        proof {
                            assert(finish_matches(out@.last(), *it, self.identity._pub));
                        }
                    }
                }
            }
            proof {
                reveal_with_fuel(Seq::filter, 2);
                let fint = intent_filter(selfid);
                if honored {
                    assert(fint(*it));
                    assert(intents@.take(i + 1).filter(fint) == pre.filter(fint).push(*it));
                    assert forall|k: int| 0 <= k < out@.len() implies finish_matches(
                        #[trigger] out@[k],
                        intents@.take(i + 1).filter(fint)[k],
                        self.identity._pub,
                    ) by {
                        if k < out@.len() - 1 {
                            assert(out@[k] == old_out[k]);
                            assert(intents@.take(i + 1).filter(fint)[k] == pre.filter(fint)[k]);
                        } else {
                            assert(out@[k] == out@.last());
                            assert(intents@.take(i + 1).filter(fint)[k] == *it);
                        }
                    }
                } else {
                    assert(!spec_intent_ok(selfid, *it));
                    assert(!fint(*it));
                    assert(intents@.take(i + 1).filter(fint) == pre.filter(fint));
                }
            }
        }
        proof {
            assert(intents@.take(n as int) =~= intents@);
        }
        out
    }
}

/// The seed a user can produce for a column, named by the table and
/// column directly.
pub open spec fn spec_user_db_lookup_names(
    p: identity::Private,
    uid: u64,
    imports: Seq<Import>,
    table: Seq<char>,
    column: Seq<char>,
) -> Option<Seq<u8>> {
    if uid == GOD_ID {
        Some(db::spec_column_seed(spec_db_seed(p), table, column))
    } else {
        let m = spec_seeds_bytes(seeds_map_of(spec_db_entries(imports)));
        if m.dom().contains(db::spec_column_id(table, column)) {
            Some(m[db::spec_column_id(table, column)])
        } else if m.dom().contains(db::spec_table_id(table)) {
            Some(db::spec_column_seed_from_table(m[db::spec_table_id(table)], column))
        } else if m.dom().contains(ROOT_ID) {
            Some(db::spec_column_seed(m[ROOT_ID], table, column))
        } else {
            None
        }
    }
}

} // verus!
