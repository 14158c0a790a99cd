//! The navigable session over a user's encrypted filesystem: current
//! directory, listing with a bounded refresh of dirty nodes, and per-chunk
//! file decryption.

use vstd::prelude::*;
use vstd::utf8::{decode_utf8, valid_utf8};

use crate::fs::{Entry, LockedNode, Node, SpecEntry, SpecNode, NO_PARENT_ID};
use crate::id::Uid;
use crate::identity;
use crate::register::LockedUser;
use crate::seeds::ROOT_ID;
use crate::user::{self, User};

verus! {

/// Session-level errors.
#[derive(Debug, PartialEq, Eq, Clone)]
pub enum Error {
    NotFound,
    NoNetwork(String),
    NoAccess,
    BadOperation,
    BadJson,
    ForgedSig,
}

impl From<crate::fs::Error> for Error {
    fn from(er: crate::fs::Error) -> Self {
        match er {
            crate::fs::Error::NotFound => Self::NotFound,
            crate::fs::Error::BadOperation => Self::BadOperation,
            crate::fs::Error::NoAccess => Self::NoAccess,
            crate::fs::Error::ForgedSig => Self::ForgedSig,
        }
    }
}

impl vstd::std_specs::convert::FromSpecImpl<crate::fs::Error> for Error {
    open spec fn obeys_from_spec() -> bool {
        true
    }

    open spec fn from_spec(er: crate::fs::Error) -> Self {
        match er {
            crate::fs::Error::NotFound => Self::NotFound,
            crate::fs::Error::BadOperation => Self::BadOperation,
            crate::fs::Error::NoAccess => Self::NoAccess,
            crate::fs::Error::ForgedSig => Self::ForgedSig,
        }
    }
}

/// Relies on std's `String::from_utf8`: it succeeds exactly on valid
/// UTF-8, returning the decoded characters.
#[verifier::external_body]
fn string_from_utf8(bytes: Vec<u8>) -> (r: Option<String>)
    ensures
        match r {
            Some(s) => valid_utf8(bytes@) && s@ == decode_utf8(bytes@),
            None => !valid_utf8(bytes@),
        },
{
    String::from_utf8(bytes).ok()
}

/// The display name of raw name bytes: their UTF-8 decoding, or "~" when
/// they are not valid UTF-8.
pub open spec fn spec_display_name(bytes: Seq<u8>) -> Seq<char> {
    if valid_utf8(bytes) {
        decode_utf8(bytes)
    } else {
        seq!['~']
    }
}

fn display_name(bytes: Vec<u8>) -> (r: String)
    ensures
        r@ == spec_display_name(bytes@),
{
    match string_from_utf8(bytes) {
        Some(s) => s,
        None => {
            let s = "~".to_owned();
            proof {
                reveal_strlit("~");
                assert(s@ =~= seq!['~']);
            }
            s
        },
    }
}

/// A display view of one node.
#[derive(Debug, Clone, PartialEq, Eq)]
pub struct NodeView {
    pub id: Uid,
    pub created_at: u64,
    pub size: u32,
    pub name: String,
    pub ext: Option<String>,
}

/// Whether a node view displays a node: same id and stamp, the decoded
/// name, and the size and extension of a file (a directory shows size 0
/// and no extension).
pub open spec fn node_view_matches(nv: NodeView, n: SpecNode) -> bool {
    &&& nv.id.spec_value() == n.id
    &&& nv.created_at == n.created_at
    &&& nv.name@ == spec_display_name(n.name)
    &&& match n.entry {
        SpecEntry::File { size, ext, .. } => nv.size == size && nv.ext is Some
            && nv.ext.unwrap()@ == spec_display_name(ext),
        SpecEntry::Dir { .. } => nv.size == 0 && nv.ext is None,
    }
}

impl NodeView {
    /// The display view of a node.
    pub fn from_node(node: &Node) -> (r: NodeView)
        ensures
            node_view_matches(r, node@),
    {
        let (ext, size) = match &node.entry {
            Entry::File { info } => (
                Some(display_name(crate::fs::dup_bytes(&info.ext))),
                info.size,
            ),
            Entry::Dir { .. } => (None, 0u32),
        };
        NodeView {
            id: node.id,
            size,
            created_at: node.created_at,
            name: display_name(crate::fs::dup_bytes(&node.name)),
            ext,
        }
    }

    /// An equal copy of the view.
    pub fn duplicate(&self) -> (r: NodeView)
        ensures
            r.id == self.id,
            r.created_at == self.created_at,
            r.size == self.size,
            r.name@ == self.name@,
            r.ext is Some <==> self.ext is Some,
            r.ext is Some ==> r.ext.unwrap()@ == self.ext.unwrap()@,
    {
        NodeView {
            id: self.id,
            created_at: self.created_at,
            size: self.size,
            name: self.name.clone(),
            ext: match &self.ext {
                Some(e) => Some(e.clone()),
                None => None,
            },
        }
    }

    /// Whether the node is a directory.
    pub fn is_dir(&self) -> (r: bool)
        ensures
            r == (self.ext is None),
    {
        self.ext.is_none()
    }

    pub fn id(&self) -> (r: Uid)
        ensures
            r == self.id,
    {
        self.id
    }

    pub fn size(&self) -> (r: u32)
        ensures
            r == self.size,
    {
        self.size
    }

    pub fn name(&self) -> (r: String)
        ensures
            r@ == self.name@,
    {
        self.name.clone()
    }

    pub fn created_at(&self) -> (r: u64)
        ensures
            r == self.created_at,
    {
        self.created_at
    }

    /// The file extension; a directory has none.
    pub fn ext(&self) -> (r: Option<String>)
        ensures
            r is Some <==> self.ext is Some,
            r is Some ==> r.unwrap()@ == self.ext.unwrap()@,
    {
        match &self.ext {
            Some(e) => Some(e.clone()),
            None => None,
        }
    }
}

/// A directory listing: its entries, its name, and the path down to it.
#[derive(Debug, Clone, PartialEq, Eq)]
pub struct DirView {
    items: Vec<NodeView>,
    name: String,
    breadcrumbs: Vec<NodeView>,
}

/// Whether a list of views displays a list of nodes, element for element.
pub open spec fn views_match(vs: Seq<NodeView>, ns: Seq<SpecNode>) -> bool {
    vs.len() == ns.len() && forall|k: int|
        0 <= k < vs.len() ==> node_view_matches(#[trigger] vs[k], ns[k])
}

impl DirView {
    /// The spec-level entries of the listing.
    pub closed spec fn spec_items(&self) -> Seq<NodeView> {
        self.items@
    }

    /// The listed entries.
    pub fn items(&self) -> (r: Vec<NodeView>)
        ensures
            views_match_views(r@, self.spec_items()),
    {
        dup_views(&self.items)
    }

    /// The path from the root down to this directory.
    pub fn breadcrumbs(&self) -> (r: Vec<NodeView>)
        ensures
            views_match_views(r@, self.spec_breadcrumbs()),
    {
        dup_views(&self.breadcrumbs)
    }

    /// The directory's display name.
    pub fn name(&self) -> (r: String)
        ensures
            r@ == self.spec_name(),
    {
        self.name.clone()
    }

    /// The spec-level display name.
    pub closed spec fn spec_name(&self) -> Seq<char> {
        self.name@
    }

    /// The spec-level breadcrumb views.
    pub closed spec fn spec_breadcrumbs(&self) -> Seq<NodeView> {
        self.breadcrumbs@
    }
}

/// Whether two view lists display the same fields, the extension
/// included (so a caller keeps whether each entry is a directory).
pub open spec fn views_match_views(a: Seq<NodeView>, b: Seq<NodeView>) -> bool {
    a.len() == b.len() && forall|k: int|
        0 <= k < a.len() ==> (#[trigger] a[k]).id == b[k].id && a[k].name@ == b[k].name@
            && a[k].created_at == b[k].created_at && a[k].size == b[k].size && (a[k].ext is Some
            <==> b[k].ext is Some) && (a[k].ext is Some ==> a[k].ext.unwrap()@
            == b[k].ext.unwrap()@)
}

fn dup_views(v: &Vec<NodeView>) -> (r: Vec<NodeView>)
    ensures
        views_match_views(r@, v@),
{
    let n = v.len();
    let mut r: Vec<NodeView> = Vec::new();
    for i in 0..n
        invariant
            n == v@.len(),
            r@.len() == i,
            forall|k: int|
                0 <= k < i ==> (#[trigger] r@[k]).id == v@[k].id && r@[k].name@ == v@[k].name@
                    && r@[k].created_at == v@[k].created_at && r@[k].size == v@[k].size && (
                r@[k].ext is Some <==> v@[k].ext is Some) && (r@[k].ext is Some
                    ==> r@[k].ext.unwrap()@ == v@[k].ext.unwrap()@),
        decreases n - i,
    {
        r.push(v[i].duplicate());
    }
    r
}

/// What every session call preserves, whatever the network returned: the
/// user's identity, imports and exports are untouched, and the
/// filesystem either stays as it was or equals the old tree with one
/// fetched batch applied through the ordinary build step.
pub open spec fn session_frame(pre: Protocol, post: Protocol) -> bool {
    &&& post.spec_user().identity == pre.spec_user().identity
    &&& post.spec_user().imports == pre.spec_user().imports
    &&& post.spec_user().exports == pre.spec_user().exports
    &&& (post.spec_user().fs@ == pre.spec_user().fs@ || exists|batch: Seq<
        crate::fs::SpecLockedNode,
    >|
        post.spec_user().fs@ == #[trigger] crate::fs::spec_apply(
            pre.spec_user().fs@,
            Map::<u64, Seq<u8>>::empty(),
            batch,
        ))
}

/// The ancestor chain walked upward from an id: each resolvable node's
/// id in visit order, stopping at `NO_PARENT_ID`, at an unresolvable
/// node, or when the fuel cap is spent (a corrupted store forming a
/// cycle cannot make the walk spin).
pub open spec fn spec_ancestor_walk(fsv: Seq<SpecNode>, cur: u64, fuel: nat) -> Seq<u64>
    decreases fuel,
{
    if cur == NO_PARENT_ID || fuel == 0 {
        Seq::empty()
    } else {
        match crate::fs::spec_node_by_id(fsv, cur) {
            Some(p) => seq![cur] + spec_ancestor_walk(fsv, p.parent_id, (fuel - 1) as nat),
            None => Seq::empty(),
        }
    }
}

/// Whether breadcrumb views are exactly an upward walk, reversed: the
/// path reads from the root down to the current directory's parent.
pub open spec fn crumb_ids_match(crumbs: Seq<NodeView>, walk: Seq<u64>) -> bool {
    crumbs.len() == walk.len() && forall|k: int|
        0 <= k < crumbs.len() ==> (#[trigger] crumbs[k]).id.spec_value() == walk[walk.len() - 1
            - k]
}

/// What a successful listing shows: with a directory set, that clean
/// directory's children under its decoded name, with the capped
/// ancestor walk as breadcrumbs; with none set, the visible roots under
/// the name "~" with no breadcrumbs.
pub open spec fn listing_ok(post: Protocol, dv: DirView) -> bool {
    match post.spec_cd() {
        Some(c) => crate::fs::spec_node_by_id(post.spec_user().fs@, c.spec_value())
            matches Some(n) && n.entry is Dir && !n.dirty && views_match(
            dv.spec_items(),
            crate::fs::spec_children(post.spec_user().fs@, c.spec_value()),
        ) && dv.spec_name() == spec_display_name(n.name) && crumb_ids_match(
            dv.spec_breadcrumbs(),
            spec_ancestor_walk(post.spec_user().fs@, n.parent_id, 64),
        ),
        None => views_match(
            dv.spec_items(),
            crate::fs::spec_children(post.spec_user().fs@, NO_PARENT_ID),
        ) && dv.spec_name() == seq!['~'] && dv.spec_breadcrumbs().len() == 0,
    }
}

/// Where a fallback to the root leaves the current directory: at the
/// root node exactly when that node is present, clean and a directory,
/// and unset otherwise (so the visible roots are listed instead).
pub open spec fn root_fallback_cd(fsv: Seq<SpecNode>, cd: Option<Uid>) -> bool {
    match crate::fs::spec_node_by_id(fsv, ROOT_ID) {
        Some(n) => if n.entry is Dir && !n.dirty {
            cd matches Some(c) && c.spec_value() == ROOT_ID
        } else {
            cd is None
        },
        None => cd is None,
    }
}

/// What listing a dirty node `cid` owes after its single refresh. The
/// current directory stays at `cid`. On success `listing_ok` pins the
/// listing, so the node is clean there. `NotFound` comes exactly when
/// the node is still missing or dirty after the one applied batch. Any
/// other error is either the transport's, reported with the tree left
/// as it was so that a later call retries, or `BadOperation` because
/// the refresh revealed the node to be a clean file.
pub open spec fn dirty_refresh_outcome(
    pre: Protocol,
    post: Protocol,
    cid: u64,
    r: Result<DirView, Error>,
) -> bool {
    &&& post.spec_cd() matches Some(c) && c.spec_value() == cid
    &&& match r {
        Ok(_) => true,
        Err(e) => if e == Error::NotFound {
            !(crate::fs::spec_node_by_id(post.spec_user().fs@, cid) matches Some(n) && !n.dirty)
        } else {
            post.spec_user() == pre.spec_user() || (crate::fs::spec_node_by_id(
                post.spec_user().fs@,
                cid,
            ) matches Some(n) && !n.dirty && n.entry is File && e == Error::BadOperation)
        },
    }
}

/// The single capability the session needs from the outside world:
/// fetching the locked nodes of a subtree. Implementations live with the
/// caller; nothing is assumed of what they return.
pub trait Network {
    fn fetch_subtree(&mut self, id: Uid) -> Result<Vec<LockedNode>, Error>;
}

/// A capability that has no network: every fetch fails.
struct NoNetwork;

impl Network for NoNetwork {
    fn fetch_subtree(&mut self, _id: Uid) -> Result<Vec<LockedNode>, Error> {
        Err(Error::NoNetwork(String::new()))
    }
}

/// A navigable session: the current directory, the user, and the network
/// capability.
pub struct Protocol {
    cd: Option<Uid>,
    user: User,
    net: Box<dyn Network>,
}

impl Protocol {
    /// The current directory, if one is set.
    pub closed spec fn spec_cd(&self) -> Option<Uid> {
        self.cd
    }

    /// The session's user.
    pub closed spec fn spec_user(&self) -> User {
        self.user
    }

    /// The session's user, for inspection.
    pub fn user(&self) -> (r: &User)
        ensures
            r == self.spec_user(),
    {
        &self.user
    }

    /// Opens a session with no network: the session user is the full
    /// unlock outcome of the locked state, and dirty nodes cannot be
    /// refreshed (every fetch fails).
    pub fn new_no_network(ident_priv: identity::Private, locked: LockedUser) -> (r: Result<
        Self,
        Error,
    >)
        ensures
            r is Ok,
            r.unwrap().spec_cd() is None,
            r.unwrap().spec_user().identity._priv == ident_priv,
            r.unwrap().spec_user().identity._pub == locked._pub,
            ({
                let u = r.unwrap().spec_user();
                let xsk = ident_priv.x_priv@;
                let pubid = locked._pub.id.spec_value();
                &&& u.imports@.len() == locked.shares@.filter(
                    user::import_filter(xsk, pubid),
                ).len()
                &&& forall|k: int|
                    0 <= k < u.imports@.len() ==> user::import_matches(
                        #[trigger] u.imports@[k],
                        locked.shares@.filter(user::import_filter(xsk, pubid))[k],
                        xsk,
                    )
                &&& u.exports@.len() == locked.shares@.filter(user::export_filter(pubid)).len()
                &&& forall|k: int|
                    0 <= k < u.exports@.len() ==> user::export_matches(
                        #[trigger] u.exports@[k],
                        locked.shares@.filter(user::export_filter(pubid))[k],
                    )
                &&& u.fs@ == crate::fs::spec_apply(
                    Seq::<SpecNode>::empty(),
                    user::spec_user_fs_map(ident_priv, pubid, u.imports@),
                    locked.roots@.map_values(|ln: LockedNode| ln@),
                )
            }),
    {
        Self::new(ident_priv, locked, Box::new(NoNetwork))
    }

    /// Opens a session: the user is reconstructed from the locked state
    /// through the unlock procedure — admissible shares become the
    /// imports, self-signed shares the exports, and the filesystem the
    /// rebuild from the locked roots — and the current directory is
    /// unset.
    pub fn new(ident_priv: identity::Private, locked: LockedUser, net: Box<dyn Network>) -> (r:
        Result<Self, Error>)
        ensures
            r is Ok,
            r.unwrap().spec_cd() is None,
            r.unwrap().spec_user().identity._priv == ident_priv,
            r.unwrap().spec_user().identity._pub == locked._pub,
            ({
                let u = r.unwrap().spec_user();
                let xsk = ident_priv.x_priv@;
                let pubid = locked._pub.id.spec_value();
                &&& u.imports@.len() == locked.shares@.filter(
                    user::import_filter(xsk, pubid),
                ).len()
                &&& forall|k: int|
                    0 <= k < u.imports@.len() ==> user::import_matches(
                        #[trigger] u.imports@[k],
                        locked.shares@.filter(user::import_filter(xsk, pubid))[k],
                        xsk,
                    )
                &&& u.exports@.len() == locked.shares@.filter(user::export_filter(pubid)).len()
                &&& forall|k: int|
                    0 <= k < u.exports@.len() ==> user::export_matches(
                        #[trigger] u.exports@[k],
                        locked.shares@.filter(user::export_filter(pubid))[k],
                    )
                &&& u.fs@ == crate::fs::spec_apply(
                    Seq::<SpecNode>::empty(),
                    user::spec_user_fs_map(ident_priv, pubid, u.imports@),
                    locked.roots@.map_values(|ln: LockedNode| ln@),
                )
            }),
    {
        let user = match user::unlock_with_params(
            &ident_priv,
            &locked._pub,
            locked.shares.as_slice(),
            locked.roots.as_slice(),
        ) {
            Ok(u) => u,
            Err(_) => {
                return Err(Error::NoAccess);
            },
        };
        Ok(Protocol { cd: None, user, net })
    }

    /// A listing of one directory of the current tree: its entries as
    /// views, its display name, and the capped breadcrumb walk. Succeeds
    /// exactly when the node exists and is a directory; a missing node is
    /// `NotFound` and a file is `BadOperation`.
    fn dir_view_at(&self, cd: Uid) -> (r: Result<DirView, Error>)
        ensures
            ({
                match crate::fs::spec_node_by_id(self.spec_user().fs@, cd.spec_value()) {
                    None => r == Err::<DirView, Error>(Error::NotFound),
                    Some(n) => match n.entry {
                        SpecEntry::File { .. } => r == Err::<DirView, Error>(Error::BadOperation),
                        SpecEntry::Dir { .. } => r matches Ok(dv) && views_match(
                            dv.spec_items(),
                            crate::fs::spec_children(self.spec_user().fs@, cd.spec_value()),
                        ) && dv.spec_name() == spec_display_name(n.name) && crumb_ids_match(
                            dv.spec_breadcrumbs(),
                            spec_ancestor_walk(self.spec_user().fs@, n.parent_id, 64),
                        ),
                    },
                }
            }),
    {
        let node = match self.user.fs.node_by_id(cd) {
            Some(n) => n,
            None => {
                return Err(Error::NotFound);
            },
        };
        match &node.entry {
            Entry::Dir { .. } => {},
            Entry::File { .. } => {
                return Err(Error::BadOperation);
            },
        }
        let name = display_name(crate::fs::dup_bytes(&node.name));
        let mut cur = node.parent_id;
        let children = self.user.fs.children(cd);
        let n = children.len();
        let mut items: Vec<NodeView> = Vec::new();
        for i in 0..n
            invariant
                n == children@.len(),
                views_match(
                    items@,
                    children@.map_values(|x: Node| x@).take(i as int),
                ),
            decreases n - i,
        {
            items.push(NodeView::from_node(&children[i]));
            proof {
                assert(children@.map_values(|x: Node| x@).take(i + 1) =~= children@.map_values(
                    |x: Node| x@,
                ).take(i as int).push(children@[i as int]@));
            }
        }
        proof {
            assert(children@.map_values(|x: Node| x@).take(n as int) =~= children@.map_values(
                |x: Node| x@,
            ));
        }
        let ghost fsv = self.spec_user().fs@;
        let ghost start = cur.spec_value();
        let ghost full_walk = spec_ancestor_walk(fsv, start, 64);
        let mut up: Vec<NodeView> = Vec::new();
        let mut steps: usize = 0;
        while cur.value() != NO_PARENT_ID && steps < 64
            invariant
                steps <= 64,
                up@.len() <= steps,
                fsv == self.spec_user().fs@,
                full_walk == spec_ancestor_walk(fsv, start, 64),
                full_walk == up@.map_values(|v: NodeView| v.id.spec_value())
                    + spec_ancestor_walk(fsv, cur.spec_value(), (64 - steps) as nat),
            decreases 64 - steps,
        {
            let ghost up0 = up@;
            let ghost cur0 = cur.spec_value();
            match self.user.fs.node_by_id(cur) {
                Some(p) => {
                    let next = p.parent_id;
                    up.push(
                        NodeView {
                            id: cur,
                            created_at: p.created_at,
                            size: 0,
                            name: display_name(crate::fs::dup_bytes(&p.name)),
                            ext: None,
                        },
                    );
                    cur = next;
                    proof {
                        assert(spec_ancestor_walk(fsv, cur0, (64 - steps) as nat) == seq![cur0]
                            + spec_ancestor_walk(fsv, cur.spec_value(), (64 - (steps + 1)) as nat));
                        assert(up@.map_values(|v: NodeView| v.id.spec_value()) =~= up0.map_values(
                            |v: NodeView| v.id.spec_value(),
                        ).push(cur0));
                        assert(up0.map_values(|v: NodeView| v.id.spec_value()).push(cur0)
                            + spec_ancestor_walk(fsv, cur.spec_value(), (64 - (steps + 1)) as nat)
                            =~= up0.map_values(|v: NodeView| v.id.spec_value()) + (seq![cur0]
                            + spec_ancestor_walk(
                            fsv,
                            cur.spec_value(),
                            (64 - (steps + 1)) as nat,
                        )));
                    }
                },
                None => {
                    cur = Uid::new(NO_PARENT_ID);
                    proof {
                        assert(spec_ancestor_walk(fsv, cur0, (64 - steps) as nat)
                            =~= Seq::<u64>::empty());
                        assert(spec_ancestor_walk(fsv, cur.spec_value(), (64 - (steps + 1)) as nat)
                            =~= Seq::<u64>::empty());
                        assert(up@.map_values(|v: NodeView| v.id.spec_value())
                            + Seq::<u64>::empty() =~= up@.map_values(
                            |v: NodeView| v.id.spec_value(),
                        ));
                    }
                },
            }
            steps += 1;
        }
        proof {
            assert(spec_ancestor_walk(fsv, cur.spec_value(), (64 - steps) as nat) =~= Seq::<
                u64,
            >::empty());
            assert(full_walk =~= up@.map_values(|v: NodeView| v.id.spec_value()));
        }
        let ghost up_orig = up@;
        let ghost walked = up@.len();
        let mut breadcrumbs: Vec<NodeView> = Vec::new();
        loop
            invariant
                breadcrumbs@.len() + up@.len() == walked,
                walked <= 64,
                walked == full_walk.len(),
                walked == up_orig.len(),
                up@ == up_orig.take(up@.len() as int),
                forall|k: int|
                    0 <= k < up_orig.len() ==> (#[trigger] up_orig[k]).id.spec_value()
                        == full_walk[k],
                forall|k: int|
                    0 <= k < breadcrumbs@.len() ==> (#[trigger] breadcrumbs@[k]).id.spec_value()
                        == full_walk[walked - 1 - k],
            ensures
                breadcrumbs@.len() == walked,
                forall|k: int|
                    0 <= k < breadcrumbs@.len() ==> (#[trigger] breadcrumbs@[k]).id.spec_value()
                        == full_walk[walked - 1 - k],
            decreases up@.len(),
        {
            let ghost m = up@.len() as int;
            match up.pop() {
                Some(v) => {
                    proof {
                        assert(m <= walked);
                        assert(m <= up_orig.len());
                        assert(up_orig.take(m).len() == m);
                    }
                    breadcrumbs.push(v);
                    proof {
                        assert(v == up_orig.take(m)[m - 1]);
                        assert(v == up_orig[m - 1]);
                        assert(up@ =~= up_orig.take(m - 1));
                    }
                },
                None => {
                    break ;
                },
            }
        }
        proof {
            assert(crumb_ids_match(breadcrumbs@, full_walk));
        }
        Ok(DirView { items, name, breadcrumbs })
    }

    /// The fallback listing with no directory set: the visible roots
    /// under the name "~", with no breadcrumbs.
    fn root_listing(&self) -> (r: DirView)
        ensures
            views_match(
                r.spec_items(),
                crate::fs::spec_children(self.spec_user().fs@, NO_PARENT_ID),
            ),
            r.spec_name() == seq!['~'],
            r.spec_breadcrumbs().len() == 0,
    {
        let roots = self.user.fs.ls_root();
        let n = roots.len();
        let mut items: Vec<NodeView> = Vec::new();
        for i in 0..n
            invariant
                n == roots@.len(),
                views_match(
                    items@,
                    roots@.map_values(|x: Node| x@).take(i as int),
                ),
            decreases n - i,
        {
            items.push(NodeView::from_node(&roots[i]));
            proof {
                assert(roots@.map_values(|x: Node| x@).take(i + 1) =~= roots@.map_values(
                    |x: Node| x@,
                ).take(i as int).push(roots@[i as int]@));
            }
        }
        proof {
            assert(roots@.map_values(|x: Node| x@).take(n as int) =~= roots@.map_values(
                |x: Node| x@,
            ));
        }
        let name = "~".to_owned();
        proof {
            reveal_strlit("~");
            assert(name@ =~= seq!['~']);
        }
        DirView { items, name, breadcrumbs: Vec::new() }
    }

    /// Falls back to the root: the current directory becomes the root
    /// node when it is present, clean and a directory, and is unset
    /// otherwise, in which case the visible roots are listed under the
    /// name "~". The user is untouched either way.
    fn cd_to_root_view(&mut self) -> (r: DirView)
        ensures
            final(self).spec_user() == old(self).spec_user(),
            session_frame(*old(self), *final(self)),
            listing_ok(*final(self), r),
            root_fallback_cd(old(self).spec_user().fs@, final(self).spec_cd()),
    {
        let root_id = Uid::new(ROOT_ID);
        let usable = match self.user.fs.node_by_id(root_id) {
            Some(n) => !n.dirty && (match &n.entry {
                Entry::Dir { .. } => true,
                Entry::File { .. } => false,
            }),
            None => false,
        };
        if usable {
            match self.dir_view_at(root_id) {
                Ok(dv) => {
                    self.cd = Some(root_id);
                    return dv;
                },
                Err(_) => {},
            }
        }
        self.cd = None;
        self.root_listing()
    }

    /// Lists the current directory. An unset or unresolvable current
    /// directory falls back to the root, without touching the user, and
    /// succeeds. A clean current directory is listed without touching
    /// the user or the network. A dirty node is refreshed through the
    /// network capability once: a transport failure propagates with the
    /// tree left as it was, so a later call retries, and `NotFound`
    /// comes exactly when the node is still missing or dirty after that
    /// one refresh, rather than looping. Whatever the fetch returned,
    /// the session only ever applies it through the ordinary build step.
    pub fn ls_cur_mut(&mut self) -> (r: Result<DirView, Error>)
        ensures
            session_frame(*old(self), *final(self)),
            r matches Ok(dv) ==> listing_ok(*final(self), dv),
            ({
                let pre_fs = old(self).spec_user().fs@;
                match old(self).spec_cd() {
                    None => r is Ok && final(self).spec_user() == old(self).spec_user()
                        && root_fallback_cd(pre_fs, final(self).spec_cd()),
                    Some(c) => match crate::fs::spec_node_by_id(pre_fs, c.spec_value()) {
                        None => r is Ok && final(self).spec_user() == old(self).spec_user()
                            && root_fallback_cd(pre_fs, final(self).spec_cd()),
                        Some(n) => if !n.dirty {
                            match n.entry {
                                SpecEntry::Dir { .. } => r is Ok && final(self).spec_user()
                                    == old(self).spec_user() && final(self).spec_cd() == Some(c),
                                SpecEntry::File { .. } => r == Err::<DirView, Error>(
                                    Error::BadOperation,
                                ) && final(self).spec_user() == old(self).spec_user()
                                    && final(self).spec_cd() == Some(c),
                            }
                        } else {
                            dirty_refresh_outcome(*old(self), *final(self), c.spec_value(), r)
                        },
                    },
                }
            }),
    {
        let cd = match self.cd {
            Some(cd) => cd,
            None => {
                return Ok(self.cd_to_root_view());
            },
        };
        let state: Option<bool> = match self.user.fs.node_by_id(cd) {
            Some(n) => Some(n.dirty),
            None => None,
        };
        let dirty = match state {
            Some(d) => d,
            None => {
                return Ok(self.cd_to_root_view());
            },
        };
        if dirty {
            let nodes = match self.net.fetch_subtree(cd) {
                Ok(v) => v,
                Err(e) => {
                    return Err(e);
                },
            };
            if self.user.fs.add_or_update_subtree(nodes.as_slice(), cd).is_err() {
                return Err(Error::NotFound);
            }
            proof {
                let batch = nodes@.map_values(|ln: LockedNode| ln@);
                assert(self.spec_user().fs@ == crate::fs::spec_apply(
                    old(self).spec_user().fs@,
                    Map::<u64, Seq<u8>>::empty(),
                    batch,
                ));
            }
            let clean_now = match self.user.fs.node_by_id(cd) {
                Some(n) => !n.dirty,
                None => false,
            };
            if !clean_now {
                return Err(Error::NotFound);
            }
        }
        self.dir_view_at(cd)
    }

    /// Steps one level up: to the current node's parent where one
    /// exists; at the root the current directory becomes unset and the
    /// visible roots are listed; an unresolvable current node falls
    /// back to the root. The user changes only through a dirty parent's
    /// single refresh.
    pub fn go_back(&mut self) -> (r: Result<DirView, Error>)
        ensures
            session_frame(*old(self), *final(self)),
            r matches Ok(dv) ==> listing_ok(*final(self), dv),
            ({
                let pre_fs = old(self).spec_user().fs@;
                match old(self).spec_cd() {
                    None => r is Ok && final(self).spec_user() == old(self).spec_user()
                        && root_fallback_cd(pre_fs, final(self).spec_cd()),
                    Some(c) => match crate::fs::spec_node_by_id(pre_fs, c.spec_value()) {
                        None => r is Ok && final(self).spec_user() == old(self).spec_user()
                            && root_fallback_cd(pre_fs, final(self).spec_cd()),
                        Some(n) => if n.parent_id == NO_PARENT_ID {
                            r is Ok && final(self).spec_cd() is None && final(self).spec_user()
                                == old(self).spec_user()
                        } else {
                            match crate::fs::spec_node_by_id(pre_fs, n.parent_id) {
                                None => r is Ok && final(self).spec_cd() is None && final(self).spec_user() == old(self).spec_user(),
                                Some(p) => if !p.dirty {
                                    match p.entry {
                                        SpecEntry::Dir { .. } => r is Ok && (final(self).spec_cd()
                                            matches Some(pc) && pc.spec_value() == n.parent_id)
                                            && final(self).spec_user() == old(self).spec_user(),
                                        SpecEntry::File { .. } => r == Err::<DirView, Error>(
                                            Error::BadOperation,
                                        ) && (final(self).spec_cd() matches Some(pc)
                                            && pc.spec_value() == n.parent_id)
                                            && final(self).spec_user() == old(self).spec_user(),
                                    }
                                } else {
                                    dirty_refresh_outcome(
                                        *old(self),
                                        *final(self),
                                        n.parent_id,
                                        r,
                                    )
                                },
                            }
                        },
                    },
                }
            }),
    {
        let cd = match self.cd {
            Some(cd) => cd,
            None => {
                return Ok(self.cd_to_root_view());
            },
        };
        let parent_opt: Option<Uid> = match self.user.fs.node_by_id(cd) {
            Some(n) => Some(n.parent_id),
            None => None,
        };
        let parent = match parent_opt {
            Some(p) => p,
            None => {
                return Ok(self.cd_to_root_view());
            },
        };
        if parent.value() == NO_PARENT_ID {
            self.cd = None;
            return Ok(self.root_listing());
        }
        if self.user.fs.node_by_id(parent).is_none() {
            self.cd = None;
            return Ok(self.root_listing());
        }
        self.cd_to_dir(&parent)
    }

    /// Jumps to a directory and lists it: the current directory becomes
    /// the given id, and the listing behaves as `ls_cur_mut` from there
    /// (falling back to the root when the id is unresolvable, refreshing
    /// once when it is dirty).
    pub fn cd_to_dir(&mut self, id: &Uid) -> (r: Result<DirView, Error>)
        ensures
            session_frame(*old(self), *final(self)),
            r matches Ok(dv) ==> listing_ok(*final(self), dv),
            ({
                let pre_fs = old(self).spec_user().fs@;
                match crate::fs::spec_node_by_id(pre_fs, id.spec_value()) {
                    None => r is Ok && final(self).spec_user() == old(self).spec_user()
                        && root_fallback_cd(pre_fs, final(self).spec_cd()),
                    Some(n) => if !n.dirty {
                        match n.entry {
                            SpecEntry::Dir { .. } => r is Ok && final(self).spec_cd() == Some(*id)
                                && final(self).spec_user() == old(self).spec_user(),
                            SpecEntry::File { .. } => r == Err::<DirView, Error>(
                                Error::BadOperation,
                            ) && final(self).spec_cd() == Some(*id) && final(self).spec_user()
                                == old(self).spec_user(),
                        }
                    } else {
                        dirty_refresh_outcome(*old(self), *final(self), id.spec_value(), r)
                    },
                }
            }),
    {
        self.cd = Some(*id);
        self.ls_cur_mut()
    }

    /// Decrypts one chunk of a file's content with the file's key
    /// material. Chunk nonces depend only on the key material and the
    /// index, so chunks decrypt independently and out of order.
    pub fn chunk_decrypt_for_file(&self, chunk: &[u8], file_id: &Uid, chunk_idx: u32) -> (r:
        Result<Vec<u8>, Error>)
        ensures
            ({
                match crate::fs::spec_node_by_id(self.spec_user().fs@, file_id.spec_value()) {
                    None => r == Err::<Vec<u8>, Error>(Error::NotFound),
                    Some(n) => match n.entry {
                        SpecEntry::Dir { .. } => r == Err::<Vec<u8>, Error>(Error::BadOperation),
                        SpecEntry::File { key, nonce, .. } => match crate::crypto::ae_dec_of(
                            key,
                            crate::fs::spec_chunk_nonce(nonce, chunk_idx),
                            chunk@,
                        ) {
                            Some(pt) => r is Ok && r.unwrap()@ == pt,
                            None => r == Err::<Vec<u8>, Error>(Error::NoAccess),
                        },
                    },
                }
            }),
    {
        let node = match self.user.fs.node_by_id(*file_id) {
            Some(n) => n,
            None => {
                return Err(Error::NotFound);
            },
        };
        match &node.entry {
            Entry::File { info } => match info.chunk_decrypt(chunk_idx, chunk) {
                Some(pt) => Ok(pt),
                None => Err(Error::NoAccess),
            },
            Entry::Dir { .. } => Err(Error::BadOperation),
        }
    }
}

} // verus!
