//! The encrypted filesystem view: nodes, locked nodes, and the tree
//! rebuild from server-delivered ciphertexts.
//!
//! Every directory has a seed; a node's payload is sealed under a key
//! expanded from its own seed, and a child's seed is derived from its
//! parent directory's seed and the child's id. Holding a directory's seed
//! therefore unlocks exactly that subtree.

use vstd::prelude::*;
use vstd::seq_lib::*;

use crate::crypto;
use crate::id::{spec_be_bytes, spec_be_u64, Uid};
use crate::seeds::{Seed, Seeds};

verus! {

/// The parent id that terminates upward walks.
pub const NO_PARENT_ID: u64 = 0xffff_ffff_ffff_ffff;

/// Filesystem errors.
#[derive(Debug, PartialEq, Eq, Clone, Copy)]
pub enum Error {
    NotFound,
    BadOperation,
    NoAccess,
    ForgedSig,
}

/// Per-file key material: the AEAD key and the base nonce chunk nonces are
/// derived from.
#[derive(Debug, Clone, PartialEq, Eq)]
pub struct FileInfo {
    pub size: u32,
    pub ext: Vec<u8>,
    pub key: [u8; 32],
    pub base_nonce: [u8; 12],
}

/// What a node holds: file content metadata, or a directory with its seed.
#[derive(Debug, Clone, PartialEq, Eq)]
pub enum Entry {
    File { info: FileInfo },
    Dir { seed: Seed },
}

/// A decrypted filesystem node.
#[derive(Debug, Clone, PartialEq, Eq)]
pub struct Node {
    pub id: Uid,
    pub parent_id: Uid,
    pub created_at: u64,
    pub name: Vec<u8>,
    pub entry: Entry,
    pub dirty: bool,
}

/// The mathematical value of an [`Entry`].
pub ghost enum SpecEntry {
    File { size: u32, ext: Seq<u8>, key: Seq<u8>, nonce: Seq<u8> },
    Dir { seed: Seq<u8> },
}

/// The mathematical value of a [`Node`].
pub ghost struct SpecNode {
    pub id: u64,
    pub parent_id: u64,
    pub created_at: u64,
    pub name: Seq<u8>,
    pub entry: SpecEntry,
    pub dirty: bool,
}

impl View for Node {
    type V = SpecNode;

    open spec fn view(&self) -> SpecNode {
        SpecNode {
            id: self.id.spec_value(),
            parent_id: self.parent_id.spec_value(),
            created_at: self.created_at,
            name: self.name@,
            entry: match self.entry {
                Entry::File { info } => SpecEntry::File {
                    size: info.size,
                    ext: info.ext@,
                    key: info.key@,
                    nonce: info.base_nonce@,
                },
                Entry::Dir { seed } => SpecEntry::Dir { seed: seed.bytes@ },
            },
            dirty: self.dirty,
        }
    }
}

impl Node {
    /// An equal copy of the node.
    pub fn duplicate(&self) -> (r: Self)
        ensures
            r@ == self@,
    {
        let entry = match &self.entry {
            Entry::File { info } => Entry::File {
                info: FileInfo {
                    size: info.size,
                    ext: dup_bytes(&info.ext),
                    key: info.key,
                    base_nonce: info.base_nonce,
                },
            },
            Entry::Dir { seed } => Entry::Dir { seed: *seed },
        };
        Node {
            id: self.id,
            parent_id: self.parent_id,
            created_at: self.created_at,
            name: dup_bytes(&self.name),
            entry,
            dirty: self.dirty,
        }
    }
}

/// An equal copy of a byte vector.
pub fn dup_bytes(v: &Vec<u8>) -> (r: Vec<u8>)
    ensures
        r@ == v@,
{
    let mut r: Vec<u8> = Vec::new();
    r.extend_from_slice(v.as_slice());
    proof {
        assert(r@ =~= v@);
    }
    r
}

/// Copies a byte vector's tail from an offset.
pub fn dup_bytes_from(v: &[u8], from: usize) -> (r: Vec<u8>)
    requires
        from <= v@.len(),
    ensures
        r@ == v@.skip(from as int),
{
    let mut r: Vec<u8> = Vec::new();
    let n = v.len();
    let mut i = from;
    while i < n
        invariant
            from <= i <= n,
            n == v@.len(),
            r@ == v@.subrange(from as int, i as int),
        decreases n - i,
    {
        r.push(v[i]);
        proof {
            assert(v@.subrange(from as int, i + 1) =~= v@.subrange(from as int, i as int).push(
                v@[i as int],
            ));
        }
        i += 1;
    }
    proof {
        assert(r@ =~= v@.skip(from as int));
    }
    r
}

/// A node as the server stores it: plaintext routing metadata and the
/// sealed payload.
#[derive(Debug, Clone, PartialEq, Eq)]
pub struct LockedNode {
    pub id: Uid,
    pub parent_id: Uid,
    pub created_at: u64,
    pub dirty: bool,
    pub nonce: [u8; 12],
    pub payload: Vec<u8>,
}

/// The mathematical value of a [`LockedNode`].
pub ghost struct SpecLockedNode {
    pub id: u64,
    pub parent_id: u64,
    pub created_at: u64,
    pub dirty: bool,
    pub nonce: Seq<u8>,
    pub payload: Seq<u8>,
}

impl View for LockedNode {
    type V = SpecLockedNode;

    open spec fn view(&self) -> SpecLockedNode {
        SpecLockedNode {
            id: self.id.spec_value(),
            parent_id: self.parent_id.spec_value(),
            created_at: self.created_at,
            dirty: self.dirty,
            nonce: self.nonce@,
            payload: self.payload@,
        }
    }
}

impl LockedNode {
    /// An equal copy of the locked node.
    pub fn duplicate(&self) -> (r: Self)
        ensures
            r@ == self@,
    {
        LockedNode {
            id: self.id,
            parent_id: self.parent_id,
            created_at: self.created_at,
            dirty: self.dirty,
            nonce: self.nonce,
            payload: dup_bytes(&self.payload),
        }
    }
}

/// The key a node's payload is sealed under: its seed expanded over
/// "node".
pub open spec fn spec_node_key(seed: Seq<u8>) -> Seq<u8> {
    crypto::hkdf_of(seed, seq![110u8, 111u8, 100u8, 101u8])
}

/// A child's seed: the parent directory's seed expanded over "chd" and the
/// child's id.
pub open spec fn spec_child_seed(parent_seed: Seq<u8>, id: u64) -> Seq<u8> {
    crypto::hkdf_of(parent_seed, seq![99u8, 104u8, 100u8] + spec_be_bytes(id))
}

fn node_key(seed: &Seed) -> (r: [u8; 32])
    ensures
        r@ == spec_node_key(seed.bytes@),
{
    let mut info: Vec<u8> = Vec::new();
    info.push(110);
    info.push(111);
    info.push(100);
    info.push(101);
    proof {
        assert(info@ =~= seq![110u8, 111u8, 100u8, 101u8]);
    }
    crypto::hkdf_expand32(seed.bytes.as_slice(), info.as_slice())
}

/// Derives a child's seed from its parent directory's seed.
pub fn child_seed(parent_seed: &Seed, id: Uid) -> (r: Seed)
    ensures
        r.bytes@ == spec_child_seed(parent_seed.bytes@, id.spec_value()),
{
    let mut info: Vec<u8> = Vec::new();
    info.push(99);
    info.push(104);
    info.push(100);
    let id_bytes = id.as_bytes();
    info.extend_from_slice(id_bytes.as_slice());
    proof {
        assert(info@ =~= seq![99u8, 104u8, 100u8] + spec_be_bytes(id.spec_value()));
    }
    Seed { bytes: crypto::hkdf_expand32(parent_seed.bytes.as_slice(), info.as_slice()) }
}

/// 44 zero bytes: the fixed key slot of a directory's metadata frame.
pub open spec fn spec_zeros44() -> Seq<u8> {
    Seq::new(44, |i: int| 0u8)
}

/// A node's metadata frame: name length, kind byte, size, extension
/// length, then the name, the extension, and the 44-byte key slot.
pub open spec fn spec_meta_bytes(n: SpecNode) -> Seq<u8> {
    match n.entry {
        SpecEntry::Dir { seed } => spec_be_bytes(n.name.len() as u64) + seq![0u8] + spec_be_bytes(
            0,
        ) + spec_be_bytes(0) + n.name + Seq::<u8>::empty() + spec_zeros44(),
        SpecEntry::File { size, ext, key, nonce } => spec_be_bytes(n.name.len() as u64)
            + seq![1u8] + spec_be_bytes(size as u64) + spec_be_bytes(ext.len() as u64) + n.name
            + ext + (key + nonce),
    }
}

/// What reading a metadata frame back yields, given the node's routing
/// metadata and its seed.
pub open spec fn spec_node_from_meta(
    bytes: Seq<u8>,
    id: u64,
    parent_id: u64,
    created_at: u64,
    dirty: bool,
    seed: Seq<u8>,
) -> Option<SpecNode> {
    if bytes.len() < 25 {
        None
    } else {
        let nl = spec_be_u64(bytes.subrange(0, 8)) as int;
        let kind = bytes[8];
        let size = spec_be_u64(bytes.subrange(9, 17));
        let el = spec_be_u64(bytes.subrange(17, 25)) as int;
        if bytes.len() != 69 + nl + el {
            None
        } else if kind == 0 && size == 0 && el == 0 {
            Some(
                SpecNode {
                    id,
                    parent_id,
                    created_at,
                    name: bytes.subrange(25, 25 + nl),
                    entry: SpecEntry::Dir { seed },
                    dirty,
                },
            )
        } else if kind == 1 && size <= u32::MAX as u64 {
            Some(
                SpecNode {
                    id,
                    parent_id,
                    created_at,
                    name: bytes.subrange(25, 25 + nl),
                    entry: SpecEntry::File {
                        size: size as u32,
                        ext: bytes.subrange(25 + nl, 25 + nl + el),
                        key: bytes.subrange(25 + nl + el, 25 + nl + el + 32),
                        nonce: bytes.subrange(25 + nl + el + 32, 25 + nl + el + 44),
                    },
                    dirty,
                },
            )
        } else {
            None
        }
    }
}

/// What unsealing a locked node with a seed yields.
pub open spec fn spec_unlock_node(ln: SpecLockedNode, seed: Seq<u8>) -> Option<SpecNode> {
    match crypto::ae_dec_of(spec_node_key(seed), ln.nonce, ln.payload) {
        Some(bytes) => spec_node_from_meta(bytes, ln.id, ln.parent_id, ln.created_at, ln.dirty, seed),
        None => None,
    }
}

/// The pieces of a seven-part concatenation sit at their offsets.
proof fn lemma_concat7_pieces(
    a: Seq<u8>,
    b: Seq<u8>,
    c: Seq<u8>,
    d: Seq<u8>,
    e: Seq<u8>,
    f: Seq<u8>,
    g: Seq<u8>,
)
    ensures
        ({
            let all = a + b + c + d + e + f + g;
            let o1 = a.len() as int;
            let o2 = o1 + b.len();
            let o3 = o2 + c.len();
            let o4 = o3 + d.len();
            let o5 = o4 + e.len();
            let o6 = o5 + f.len();
            let o7 = o6 + g.len();
            &&& all.len() == o7
            &&& all.subrange(0, o1) == a
            &&& all.subrange(o1, o2) == b
            &&& all.subrange(o2, o3) == c
            &&& all.subrange(o3, o4) == d
            &&& all.subrange(o4, o5) == e
            &&& all.subrange(o5, o6) == f
            &&& all.subrange(o6, o7) == g
        }),
{
    let all = a + b + c + d + e + f + g;
    let o1 = a.len() as int;
    let o2 = o1 + b.len();
    let o3 = o2 + c.len();
    let o4 = o3 + d.len();
    let o5 = o4 + e.len();
    let o6 = o5 + f.len();
    let o7 = o6 + g.len();
    assert(all.subrange(0, o1) =~= a);
    assert(all.subrange(o1, o2) =~= b);
    assert(all.subrange(o2, o3) =~= c);
    assert(all.subrange(o3, o4) =~= d);
    assert(all.subrange(o4, o5) =~= e);
    assert(all.subrange(o5, o6) =~= f);
    assert(all.subrange(o6, o7) =~= g);
}

/// Whether a node's mathematical value is frameable: bounded name and
/// extension, and well-sized key material.
pub open spec fn spec_node_frameable(n: SpecNode) -> bool {
    &&& n.name.len() <= 0xffff_ff
    &&& match n.entry {
        SpecEntry::File { ext, key, nonce, .. } => ext.len() <= 0xffff_ff && key.len() == 32
            && nonce.len() == 12,
        SpecEntry::Dir { .. } => true,
    }
}

/// Reading a node's metadata frame back yields the node.
#[verifier::rlimit(100)]
pub proof fn lemma_meta_round_trip(n: SpecNode, seed: Seq<u8>)
    requires
        spec_node_frameable(n),
        n.entry matches SpecEntry::Dir { seed: ds } ==> ds == seed,
    ensures
        spec_node_from_meta(
            spec_meta_bytes(n),
            n.id,
            n.parent_id,
            n.created_at,
            n.dirty,
            seed,
        ) == Some(n),
{
    let bytes = spec_meta_bytes(n);
    crate::id::lemma_be_round_trip(n.name.len() as u64);
    crate::id::lemma_be_round_trip(0);
    match n.entry {
        SpecEntry::Dir { seed: ds } => {
            let a = spec_be_bytes(n.name.len() as u64);
            let b = seq![0u8];
            let c = spec_be_bytes(0);
            let d = spec_be_bytes(0);
            let e = n.name;
            let f = Seq::<u8>::empty();
            let g = spec_zeros44();
            lemma_concat7_pieces(a, b, c, d, e, f, g);
            assert(bytes == a + b + c + d + e + f + g);
            assert(bytes.subrange(0, 8) == a);
            assert(bytes.subrange(9, 17) =~= c);
            assert(bytes.subrange(17, 25) =~= d);
            assert(bytes[8] == (a + b + c + d + e + f + g)[8]);
            assert(bytes[8] == 0);
            assert(bytes.subrange(25, 25 + n.name.len() as int) =~= e);
        },
        SpecEntry::File { size, ext, key, nonce } => {
            let a = spec_be_bytes(n.name.len() as u64);
            let b = seq![1u8];
            let c = spec_be_bytes(size as u64);
            let d = spec_be_bytes(ext.len() as u64);
            let e = n.name;
            let f = ext;
            let g = key + nonce;
            crate::id::lemma_be_round_trip(size as u64);
            crate::id::lemma_be_round_trip(ext.len() as u64);
            lemma_concat7_pieces(a, b, c, d, e, f, g);
            assert(bytes == a + b + c + d + e + f + g);
            let nl = n.name.len() as int;
            let el = ext.len() as int;
            assert(bytes.subrange(0, 8) == a);
            assert(bytes.subrange(9, 17) =~= c);
            assert(bytes.subrange(17, 25) =~= d);
            assert(bytes[8] == (a + b + c + d + e + f + g)[8]);
            assert(bytes[8] == 1);
            assert(bytes.subrange(25, 25 + nl) =~= e);
            assert(bytes.subrange(25 + nl, 25 + nl + el) =~= f);
            assert(bytes.subrange(25 + nl + el, 25 + nl + el + 44) == g);
            assert(g.subrange(0, 32) =~= key);
            assert(g.subrange(32, 44) =~= nonce);
            assert(bytes.subrange(25 + nl + el, 25 + nl + el + 32) =~= g.subrange(0, 32));
            assert(bytes.subrange(25 + nl + el + 32, 25 + nl + el + 44) =~= g.subrange(32, 44));
        },
    }
}

/// Appends a node's metadata frame.
fn encode_meta(node: &Node) -> (r: Vec<u8>)
    requires
        spec_node_frameable(node@),
    ensures
        r@ == spec_meta_bytes(node@),
{
    let mut out: Vec<u8> = Vec::new();
    let name_len = Uid::new(node.name.len() as u64);
    let nl_bytes = name_len.as_bytes();
    out.extend_from_slice(nl_bytes.as_slice());
    match &node.entry {
        Entry::Dir { seed: _ } => {
            out.push(0);
            let z = Uid::new(0);
            let z_bytes = z.as_bytes();
            out.extend_from_slice(z_bytes.as_slice());
            out.extend_from_slice(z_bytes.as_slice());
            out.extend_from_slice(node.name.as_slice());
            let mut i: usize = 0;
            while i < 44
                invariant
                    i <= 44,
                    out@ == spec_be_bytes(node@.name.len() as u64) + seq![0u8] + spec_be_bytes(0)
                        + spec_be_bytes(0) + node@.name + spec_zeros44().take(i as int),
                decreases 44 - i,
            {
                out.push(0);
                proof {
                    assert(spec_zeros44().take(i + 1) =~= spec_zeros44().take(i as int).push(0u8));
                    assert(out@ =~= spec_be_bytes(node@.name.len() as u64) + seq![0u8]
                        + spec_be_bytes(0) + spec_be_bytes(0) + node@.name + spec_zeros44().take(
                        i + 1,
                    ));
                }
                i += 1;
            }
            proof {
                assert(spec_zeros44().take(44) =~= spec_zeros44());
                assert(node@.name + Seq::<u8>::empty() =~= node@.name);
                assert(out@ =~= spec_meta_bytes(node@));
            }
        },
        Entry::File { info } => {
            out.push(1);
            let size_id = Uid::new(info.size as u64);
            let size_bytes = size_id.as_bytes();
            out.extend_from_slice(size_bytes.as_slice());
            let el = Uid::new(info.ext.len() as u64);
            let el_bytes = el.as_bytes();
            out.extend_from_slice(el_bytes.as_slice());
            out.extend_from_slice(node.name.as_slice());
            out.extend_from_slice(info.ext.as_slice());
            out.extend_from_slice(info.key.as_slice());
            out.extend_from_slice(info.base_nonce.as_slice());
            proof {
                assert(out@ =~= spec_meta_bytes(node@));
            }
        },
    }
    out
}

/// Seals a node's metadata under its seed. Unsealing the result with the
/// same seed yields the node back.
pub fn lock_node(node: &Node, seed: &Seed) -> (r: LockedNode)
    requires
        spec_node_frameable(node@),
        node@.entry matches SpecEntry::Dir { seed: ds } ==> ds == seed.bytes@,
    ensures
        r@.id == node@.id,
        r@.parent_id == node@.parent_id,
        r@.created_at == node@.created_at,
        r@.dirty == node@.dirty,
        spec_unlock_node(r@, seed.bytes@) == Some(node@),
{
    let meta = encode_meta(node);
    let key = node_key(seed);
    let nonce = crypto::random_bytes12();
    let payload = crypto::ae_encrypt(&key, nonce.as_slice(), meta.as_slice());
    let r = LockedNode {
        id: node.id,
        parent_id: node.parent_id,
        created_at: node.created_at,
        dirty: node.dirty,
        nonce,
        payload,
    };
    proof {
        lemma_meta_round_trip(node@, seed.bytes@);
    }
    r
}

/// Unseals a locked node with a seed.
fn unlock_node(ln: &LockedNode, seed: &Seed) -> (r: Option<Node>)
    ensures
        match r {
            Some(n) => spec_unlock_node(ln@, seed.bytes@) == Some(n@),
            None => spec_unlock_node(ln@, seed.bytes@) is None,
        },
{
    let key = node_key(seed);
    let meta = match crypto::ae_decrypt(&key, ln.nonce.as_slice(), ln.payload.as_slice()) {
        Some(m) => m,
        None => {
            return None;
        },
    };
    if meta.len() < 25 {
        return None;
    }
    let total = meta.len();
    let nl64 = crate::codec::be_u64_at(meta.as_slice(), 0);
    let kind = meta[8];
    let size64 = crate::codec::be_u64_at(meta.as_slice(), 9);
    let el64 = crate::codec::be_u64_at(meta.as_slice(), 17);
    if total < 69 {
        return None;
    }
    let budget = total - 69;
    if nl64 > budget as u64 {
        return None;
    }
    let nl = nl64 as usize;
    if el64 != (budget - nl) as u64 {
        return None;
    }
    let el = el64 as usize;
    let name = slice_range_to_vec(meta.as_slice(), 25, 25 + nl);
    if kind == 0 && size64 == 0 && el == 0 {
        Some(
            Node {
                id: ln.id,
                parent_id: ln.parent_id,
                created_at: ln.created_at,
                name,
                entry: Entry::Dir { seed: *seed },
                dirty: ln.dirty,
            },
        )
    } else if kind == 1 && size64 <= 0xffff_ffff {
        let ext = slice_range_to_vec(meta.as_slice(), 25 + nl, 25 + nl + el);
        let key_seed = crate::codec::seed_at(meta.as_slice(), 25 + nl + el);
        let mut nonce = [0u8; 12];
        let mut i: usize = 0;
        while i < 12
            invariant
                i <= 12,
                total == meta@.len(),
                total == 69 + nl + el,
                forall|j: int| 0 <= j < i ==> nonce@[j] == meta@[25 + nl + el + 32 + j],
            decreases 12 - i,
        {
            nonce[i] = meta[25 + nl + el + 32 + i];
            i += 1;
        }
        proof {
            assert(nonce@ =~= meta@.subrange(
                25 + nl + el + 32,
                25 + nl as int + el as int + 44,
            ));
        }
        Some(
            Node {
                id: ln.id,
                parent_id: ln.parent_id,
                created_at: ln.created_at,
                name,
                entry: Entry::File {
                    info: FileInfo { size: size64 as u32, ext, key: key_seed.bytes, base_nonce: nonce },
                },
                dirty: ln.dirty,
            },
        )
    } else {
        None
    }
}

/// The first node with an id, scanning in storage order.
pub open spec fn spec_node_by_id(nodes: Seq<SpecNode>, id: u64) -> Option<SpecNode>
    decreases nodes.len(),
{
    if nodes.len() == 0 {
        None
    } else if nodes.first().id == id {
        Some(nodes.first())
    } else {
        spec_node_by_id(nodes.drop_first(), id)
    }
}

/// Replaces the first node with the same id, or appends the node.
pub open spec fn spec_upsert(nodes: Seq<SpecNode>, n: SpecNode) -> Seq<SpecNode>
    decreases nodes.len(),
{
    if nodes.len() == 0 {
        seq![n]
    } else if nodes.first().id == n.id {
        nodes.update(0, n)
    } else {
        seq![nodes.first()] + spec_upsert(nodes.drop_first(), n)
    }
}

/// The seed available for a locked node: one held directly for its id, or
/// one derived from its already-known parent directory.
pub open spec fn spec_seed_for(
    nodes: Seq<SpecNode>,
    seeds: Map<u64, Seq<u8>>,
    ln: SpecLockedNode,
) -> Option<Seq<u8>> {
    if seeds.dom().contains(ln.id) {
        Some(seeds[ln.id])
    } else {
        match spec_node_by_id(nodes, ln.parent_id) {
            Some(p) => match p.entry {
                SpecEntry::Dir { seed } => Some(spec_child_seed(seed, ln.id)),
                SpecEntry::File { .. } => None,
            },
            None => None,
        }
    }
}

/// One build step: unseal a locked node if a seed is available, and place
/// it; otherwise leave the tree unchanged.
pub open spec fn spec_step(
    nodes: Seq<SpecNode>,
    seeds: Map<u64, Seq<u8>>,
    ln: SpecLockedNode,
) -> Seq<SpecNode> {
    match spec_seed_for(nodes, seeds, ln) {
        Some(sd) => match spec_unlock_node(ln, sd) {
            Some(n) => spec_upsert(nodes, n),
            None => nodes,
        },
        None => nodes,
    }
}

/// Folds build steps over a batch of locked nodes, in order.
pub open spec fn spec_apply(
    nodes: Seq<SpecNode>,
    seeds: Map<u64, Seq<u8>>,
    locked: Seq<SpecLockedNode>,
) -> Seq<SpecNode>
    decreases locked.len(),
{
    if locked.len() == 0 {
        nodes
    } else {
        spec_step(spec_apply(nodes, seeds, locked.drop_last()), seeds, locked.last())
    }
}

/// The decrypted filesystem view a user holds.
#[derive(Debug, PartialEq, Eq)]
pub struct FileSystem {
    nodes: Vec<Node>,
}

impl View for FileSystem {
    type V = Seq<SpecNode>;

    closed spec fn view(&self) -> Seq<SpecNode> {
        self.nodes@.map_values(|n: Node| n@)
    }
}

/// The predicate selecting the children of an id.
pub open spec fn child_pred(id: u64) -> spec_fn(SpecNode) -> bool {
    |n: SpecNode| n.parent_id == id
}

/// The nodes whose parent is the given id, in storage order.
pub open spec fn spec_children(nodes: Seq<SpecNode>, id: u64) -> Seq<SpecNode> {
    nodes.filter(child_pred(id))
}

impl FileSystem {
    /// An empty filesystem.
    pub fn empty() -> (r: Self)
        ensures
            r@ == Seq::<SpecNode>::empty(),
    {
        let r = FileSystem { nodes: Vec::new() };
        proof {
            assert(r@ =~= Seq::<SpecNode>::empty());
        }
        r
    }

    /// An equal copy of the filesystem.
    pub fn duplicate(&self) -> (r: Self)
        ensures
            r@ == self@,
    {
        let n = self.nodes.len();
        let mut nodes: Vec<Node> = Vec::new();
        for i in 0..n
            invariant
                n == self.nodes@.len(),
                nodes@.len() == i,
                forall|j: int| 0 <= j < i ==> (#[trigger] nodes@[j])@ == self.nodes@[j]@,
            decreases n - i,
        {
            nodes.push(self.nodes[i].duplicate());
        }
        let r = FileSystem { nodes };
        proof {
            assert(r@ =~= self@);
        }
        r
    }

    /// The first node with an id, if any.
    pub fn node_by_id(&self, id: Uid) -> (r: Option<&Node>)
        ensures
            match r {
                Some(n) => spec_node_by_id(self@, id.spec_value()) == Some(n@),
                None => spec_node_by_id(self@, id.spec_value()) is None,
            },
    {
        let n = self.nodes.len();
        proof {
            assert(self@.skip(0) =~= self@);
        }
        for i in 0..n
            invariant
                n == self.nodes@.len(),
                spec_node_by_id(self@, id.spec_value()) == spec_node_by_id(
                    self@.skip(i as int),
                    id.spec_value(),
                ),
            decreases n - i,
        {
            if self.nodes[i].id.value() == id.value() {
                proof {
                    assert(self@.skip(i as int).first() == self@[i as int]);
                }
                return Some(&self.nodes[i]);
            }
            proof {
                assert(self@.skip(i as int).drop_first() =~= self@.skip(i + 1));
            }
        }
        proof {
            assert(self@.skip(n as int) =~= Seq::<SpecNode>::empty());
        }
        None
    }

    /// Copies of the nodes directly under an id, in storage order.
    pub fn children(&self, id: Uid) -> (r: Vec<Node>)
        ensures
            r@.map_values(|x: Node| x@) == spec_children(self@, id.spec_value()),
    {
        broadcast use vstd::seq_lib::group_seq_properties;

        let n = self.nodes.len();
        let mut r: Vec<Node> = Vec::new();
        proof {
            assert(self@.take(0) =~= Seq::<SpecNode>::empty());
        }
        for i in 0..n
            invariant
                n == self.nodes@.len(),
                r@.map_values(|x: Node| x@) == spec_children(
                    self@.take(i as int),
                    id.spec_value(),
                ),
            decreases n - i,
        {
            proof {
                reveal_with_fuel(Seq::filter, 2);
                assert(self@.take(i + 1) =~= self@.take(i as int) + seq![self@[i as int]]);
                Seq::<SpecNode>::filter_distributes_over_add(
                    self@.take(i as int),
                    seq![self@[i as int]],
                    child_pred(id.spec_value()),
                );
                assert(seq![self@[i as int]].drop_last() =~= Seq::<SpecNode>::empty());
                assert(Seq::<SpecNode>::empty().filter(child_pred(id.spec_value()))
                    == Seq::<SpecNode>::empty());
                assert(seq![self@[i as int]].last() == self@[i as int]);
                assert(self@[i as int] == self.nodes@[i as int]@);
                assert(child_pred(id.spec_value())(self@[i as int]) == (self@[i as int].parent_id
                    == id.spec_value()));
            }
            if self.nodes[i].parent_id.value() == id.value() {
                r.push(self.nodes[i].duplicate());
                proof {
                    assert(seq![self@[i as int]].filter(child_pred(id.spec_value()))
                        =~= seq![self@[i as int]]);
                    assert(r@.map_values(|x: Node| x@) =~= spec_children(
                        self@.take(i + 1),
                        id.spec_value(),
                    ));
                }
            } else {
                proof {
                    assert(seq![self@[i as int]].filter(child_pred(id.spec_value()))
                        =~= Seq::<SpecNode>::empty());
                    assert(r@.map_values(|x: Node| x@) =~= spec_children(
                        self@.take(i + 1),
                        id.spec_value(),
                    ));
                }
            }
        }
        proof {
            assert(self@.take(n as int) =~= self@);
        }
        r
    }

    /// Copies of the nodes with no parent: the roots the user can see.
    pub fn ls_root(&self) -> (r: Vec<Node>)
        ensures
            r@.map_values(|x: Node| x@) == spec_children(self@, NO_PARENT_ID),
    {
        self.children(Uid::new(NO_PARENT_ID))
    }

    /// The seed of a directory, for sharing its subtree.
    pub fn share_node(&self, id: Uid) -> (r: Result<Seed, Error>)
        ensures
            match spec_node_by_id(self@, id.spec_value()) {
                None => r == Err::<Seed, Error>(Error::NotFound),
                Some(n) => match n.entry {
                    SpecEntry::Dir { seed } => r is Ok && r.unwrap().bytes@ == seed,
                    SpecEntry::File { .. } => r == Err::<Seed, Error>(Error::BadOperation),
                },
            },
    {
        match self.node_by_id(id) {
            None => Err(Error::NotFound),
            Some(node) => match &node.entry {
                Entry::Dir { seed } => Ok(*seed),
                Entry::File { .. } => Err(Error::BadOperation),
            },
        }
    }

    /// Replaces the first node with the same id, or appends.
    fn upsert(&mut self, node: Node)
        ensures
            final(self)@ == spec_upsert(old(self)@, node@),
    {
        let n = self.nodes.len();
        for i in 0..n
            invariant
                n == self.nodes@.len(),
                self.nodes@ == old(self).nodes@,
                forall|j: int| 0 <= j < i ==> (#[trigger] self@[j]).id != node@.id,
            decreases n - i,
        {
            if self.nodes[i].id.value() == node.id.value() {
                proof {
                    assert(self@ == old(self)@);
                    assert(self@[i as int] == self.nodes@[i as int]@);
                    lemma_upsert_found(old(self)@, node@, i as int);
                }
                self.nodes.remove(i);
                self.nodes.insert(i, node);
                proof {
                    assert(self.nodes@ =~= old(self).nodes@.update(i as int, node));
                    assert(self@ =~= old(self)@.update(i as int, node@));
                }
                return ;
            }
        }
        proof {
            assert(self@ == old(self)@);
            lemma_upsert_missing(old(self)@, node@);
        }
        self.nodes.push(node);
        proof {
            assert(self@ =~= old(self)@.push(node@));
        }
    }

    /// Applies a batch of locked nodes: each one a seed is available for is
    /// unsealed and placed; the rest are skipped.
    pub fn apply_locked(&mut self, batch: &[LockedNode], seeds: &Seeds)
        ensures
            final(self)@ == spec_apply(
                old(self)@,
                crate::seeds::spec_seeds_bytes(seeds.map_view()),
                batch@.map_values(|ln: LockedNode| ln@),
            ),
    {
        let ghost lviews = batch@.map_values(|ln: LockedNode| ln@);
        let n = batch.len();
        for i in 0..n
            invariant
                n == batch@.len(),
                lviews == batch@.map_values(|ln: LockedNode| ln@),
                self@ == spec_apply(
                    old(self)@,
                    crate::seeds::spec_seeds_bytes(seeds.map_view()),
                    lviews.take(i as int),
                ),
            decreases n - i,
        {
            let ln = &batch[i];
            let seed: Option<Seed> = match seeds.get(ln.id) {
                Some(sd) => Some(sd),
                None => {
                    let parent_seed: Option<Seed> = match self.node_by_id(ln.parent_id) {
                        Some(p) => match &p.entry {
                            Entry::Dir { seed } => Some(*seed),
                            Entry::File { .. } => None,
                        },
                        None => None,
                    };
                    match parent_seed {
                        Some(ps) => Some(child_seed(&ps, ln.id)),
                        None => None,
                    }
                },
            };
            proof {
                assert(lviews.take(i + 1).drop_last() =~= lviews.take(i as int));
                assert(lviews.take(i + 1).last() == ln@);
            }
            match seed {
                Some(sd) => {
                    proof {
                        assert(spec_seed_for(
                            self@,
                            crate::seeds::spec_seeds_bytes(seeds.map_view()),
                            ln@,
                        ) == Some(sd.bytes@));
                    }
                    match unlock_node(ln, &sd) {
                        Some(node) => {
                            self.upsert(node);
                        },
                        None => {},
                    }
                },
                None => {
                    proof {
                        assert(spec_seed_for(
                            self@,
                            crate::seeds::spec_seeds_bytes(seeds.map_view()),
                            ln@,
                        ) is None);
                    }
                },
            }
        }
        proof {
            assert(lviews.take(n as int) =~= lviews);
        }
    }

    /// Rebuilds a filesystem from locked nodes and the seeds a user holds.
    pub fn from_locked_nodes(roots: &[LockedNode], seeds: &Seeds) -> (r: FileSystem)
        ensures
            r@ == spec_apply(
                Seq::<SpecNode>::empty(),
                crate::seeds::spec_seeds_bytes(seeds.map_view()),
                roots@.map_values(|ln: LockedNode| ln@),
            ),
    {
        let mut fs = FileSystem::empty();
        fs.apply_locked(roots, seeds);
        fs
    }

    /// Applies a fetched subtree under a parent that must already be
    /// known; seeds come only from the existing tree.
    pub fn add_or_update_subtree(&mut self, batch: &[LockedNode], parent: Uid) -> (r: Result<
        (),
        Error,
    >)
        ensures
            match r {
                Ok(()) => spec_node_by_id(old(self)@, parent.spec_value()) is Some && final(self)@
                    == spec_apply(
                    old(self)@,
                    Map::<u64, Seq<u8>>::empty(),
                    batch@.map_values(|ln: LockedNode| ln@),
                ),
                Err(e) => e == Error::NotFound && spec_node_by_id(old(self)@, parent.spec_value())
                    is None && final(self)@ == old(self)@,
            },
    {
        if self.node_by_id(parent).is_none() {
            return Err(Error::NotFound);
        }
        let empty_seeds = Seeds::new();
        self.apply_locked(batch, &empty_seeds);
        proof {
            assert(crate::seeds::spec_seeds_bytes(Map::<u64, Seed>::empty()) =~= Map::<
                u64,
                Seq<u8>,
            >::empty());
        }
        Ok(())
    }
}

/// Replacing the first match rewrites exactly that slot.
#[verifier::rlimit(100)]
proof fn lemma_upsert_found(nodes: Seq<SpecNode>, n: SpecNode, i: int)
    requires
        0 <= i < nodes.len(),
        nodes[i].id == n.id,
        forall|j: int| 0 <= j < i ==> (#[trigger] nodes[j]).id != n.id,
    ensures
        spec_upsert(nodes, n) =~= nodes.update(i, n),
    decreases nodes.len(),
{
    if i == 0 {
    } else {
        assert(nodes.first().id != n.id);
        assert forall|j: int| 0 <= j < i - 1 implies (#[trigger] nodes.drop_first()[j]).id
            != n.id by {
            assert(nodes.drop_first()[j] == nodes[j + 1]);
        }
        assert(nodes.drop_first()[i - 1] == nodes[i]);
        lemma_upsert_found(nodes.drop_first(), n, i - 1);
        assert(spec_upsert(nodes, n) =~= seq![nodes.first()] + nodes.drop_first().update(
            i - 1,
            n,
        ));
        assert(seq![nodes.first()] + nodes.drop_first().update(i - 1, n) =~= nodes.update(i, n));
    }
}

/// With no match, the node is appended.
proof fn lemma_upsert_missing(nodes: Seq<SpecNode>, n: SpecNode)
    requires
        forall|j: int| 0 <= j < nodes.len() ==> (#[trigger] nodes[j]).id != n.id,
    ensures
        spec_upsert(nodes, n) =~= nodes.push(n),
    decreases nodes.len(),
{
    if nodes.len() == 0 {
        assert(spec_upsert(nodes, n) =~= nodes.push(n));
    } else {
        assert(nodes[0].id != n.id);
        assert forall|j: int| 0 <= j < nodes.drop_first().len() implies (
        #[trigger] nodes.drop_first()[j]).id != n.id by {
            assert(nodes.drop_first()[j] == nodes[j + 1]);
        }
        lemma_upsert_missing(nodes.drop_first(), n);
        assert(seq![nodes.first()] + nodes.drop_first().push(n) =~= nodes.push(n));
    }
}

/// The nonce a chunk is sealed under: the first 8 bytes of the file's base
/// nonce, then the chunk index in big-endian bytes.
pub open spec fn spec_chunk_nonce(base: Seq<u8>, idx: u32) -> Seq<u8> {
    base.take(8) + seq![
        (idx >> 24) as u8,
        ((idx >> 16) & 0xff) as u8,
        ((idx >> 8) & 0xff) as u8,
        (idx & 0xff) as u8,
    ]
}

impl FileInfo {
    /// Decrypts one content chunk; chunk nonces depend only on the file
    /// key material and the chunk index, so chunks decrypt independently
    /// and in any order.
    pub fn chunk_decrypt(&self, chunk_idx: u32, chunk: &[u8]) -> (r: Option<Vec<u8>>)
        ensures
            match r {
                Some(v) => crypto::ae_dec_of(
                    self.key@,
                    spec_chunk_nonce(self.base_nonce@, chunk_idx),
                    chunk@,
                ) == Some(v@),
                None => crypto::ae_dec_of(
                    self.key@,
                    spec_chunk_nonce(self.base_nonce@, chunk_idx),
                    chunk@,
                ) is None,
            },
    {
        let mut nonce: Vec<u8> = Vec::new();
        let mut i: usize = 0;
        while i < 8
            invariant
                i <= 8,
                nonce@ == self.base_nonce@.take(i as int),
            decreases 8 - i,
        {
            nonce.push(self.base_nonce[i]);
            proof {
                assert(self.base_nonce@.take(i + 1) =~= self.base_nonce@.take(i as int).push(
                    self.base_nonce@[i as int],
                ));
            }
            i += 1;
        }
        nonce.push((chunk_idx >> 24) as u8);
        nonce.push(((chunk_idx >> 16) & 0xff) as u8);
        nonce.push(((chunk_idx >> 8) & 0xff) as u8);
        nonce.push((chunk_idx & 0xff) as u8);
        proof {
            assert(nonce@ =~= spec_chunk_nonce(self.base_nonce@, chunk_idx));
        }
        crypto::ae_decrypt(&self.key, nonce.as_slice(), chunk)
    }

    /// Encrypts one content chunk under the file's key material.
    pub fn chunk_encrypt(&self, chunk_idx: u32, pt: &[u8]) -> (r: Vec<u8>)
        requires
            pt@.len() < 0x100000000,
        ensures
            crypto::ae_dec_of(self.key@, spec_chunk_nonce(self.base_nonce@, chunk_idx), r@)
                == Some(pt@),
    {
        let mut nonce: Vec<u8> = Vec::new();
        let mut i: usize = 0;
        while i < 8
            invariant
                i <= 8,
                nonce@ == self.base_nonce@.take(i as int),
            decreases 8 - i,
        {
            nonce.push(self.base_nonce[i]);
            proof {
                assert(self.base_nonce@.take(i + 1) =~= self.base_nonce@.take(i as int).push(
                    self.base_nonce@[i as int],
                ));
            }
            i += 1;
        }
        nonce.push((chunk_idx >> 24) as u8);
        nonce.push(((chunk_idx >> 16) & 0xff) as u8);
        nonce.push(((chunk_idx >> 8) & 0xff) as u8);
        nonce.push((chunk_idx & 0xff) as u8);
        proof {
            assert(nonce@ =~= spec_chunk_nonce(self.base_nonce@, chunk_idx));
        }
        crypto::ae_encrypt(&self.key, nonce.as_slice(), pt)
    }
}

/// Copies a byte range of a slice.
fn slice_range_to_vec(bytes: &[u8], from: usize, to: usize) -> (r: Vec<u8>)
    requires
        from <= to <= bytes@.len(),
    ensures
        r@ == bytes@.subrange(from as int, to as int),
{
    let mut r: Vec<u8> = Vec::new();
    let mut i = from;
    while i < to
        invariant
            from <= i <= to <= bytes@.len(),
            r@ == bytes@.subrange(from as int, i as int),
        decreases to - i,
    {
        r.push(bytes[i]);
        proof {
            assert(bytes@.subrange(from as int, i + 1) =~= bytes@.subrange(
                from as int,
                i as int,
            ).push(bytes@[i as int]));
        }
        i += 1;
    }
    r
}

} // verus!
