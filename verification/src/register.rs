//! Registration and unlock: creating the root owner, joining via a
//! pin-based welcome, and reopening a locked user with a password.

use vstd::prelude::*;

use crate::codec;
use crate::fs::{self, Entry, LockedNode, Node, SpecEntry};
use crate::id::Uid;
use crate::identity::{self, Identity};
use crate::password_lock::{self, Lock};
use crate::seeds::{ctx_to_sign, Export, InviteIntent, LockedShare, Seed, Welcome, ROOT_ID};
use crate::user::{self, User, GOD_ID};

verus! {

/// Registration errors.
#[derive(Debug, PartialEq, Eq, Clone, Copy)]
pub enum Error {
    WrongPass,
    BadJson,
    ForgedSig,
}

/// A user as the server stores it: the password-sealed private identity,
/// the public half, the signed shares, pending intents, and the locked
/// root nodes.
#[derive(Debug, Clone, PartialEq, Eq)]
pub struct LockedUser {
    pub encrypted_priv: Option<Lock>,
    pub _pub: identity::Public,
    pub shares: Vec<LockedShare>,
    pub pending_invite_intents: Vec<InviteIntent>,
    pub roots: Vec<LockedNode>,
}

/// A fresh registration: what the server stores, and the live user.
#[derive(Debug)]
pub struct Signup {
    pub locked: LockedUser,
    pub user: User,
}

/// Registers the root owner: a fresh identity, a root directory whose
/// seed is the identity's filesystem seed, and the private keys sealed
/// under the password.
pub fn signup_as_god(pass: &[u8]) -> (r: Signup)
    ensures
        identity::keypair_ok(r.user.identity._priv, r.user.identity._pub),
        r.user.identity._pub.id.spec_value() == GOD_ID,
        r.locked._pub == r.user.identity._pub,
        r.locked.shares@.len() == 0,
        r.locked.roots@.len() == 1,
        r.locked.encrypted_priv is Some,
        password_lock::spec_unlock(r.locked.encrypted_priv.unwrap(), pass@) == Some(
            r.user.identity._priv.x_priv@ + r.user.identity._priv.ed_priv@,
        ),
        r.user.imports@.len() == 0,
        r.user.fs@.len() == 1,
        r.user.fs@[0].id == ROOT_ID,
        r.user.fs@[0].entry == (SpecEntry::Dir { seed: user::spec_fs_seed(r.user.identity._priv) }),
        !r.user.fs@[0].dirty,
{
    let identity = Identity::generate(Uid::new(GOD_ID));
    let fs_seed = User::fs_seed(identity.private());
    let root = Node {
        id: Uid::new(ROOT_ID),
        parent_id: Uid::new(crate::fs::NO_PARENT_ID),
        created_at: 0,
        name: Vec::new(),
        entry: Entry::Dir { seed: fs_seed },
        dirty: false,
    };
    let locked_root = fs::lock_node(&root, &fs_seed);
    let encoded_priv = codec::encode_private(identity.private());
    let encrypted_priv = password_lock::lock(encoded_priv.as_slice(), pass);
    let mut roots: Vec<LockedNode> = Vec::new();
    roots.push(locked_root);
    let no_shares: Vec<LockedShare> = Vec::new();
    let user = match user::unlock_with_params(
        identity.private(),
        identity.public(),
        no_shares.as_slice(),
        roots.as_slice(),
    ) {
        Ok(u) => u,
        Err(_) => vstd::pervasive::unreached(),
    };
    proof {
        reveal_with_fuel(Seq::filter, 2);
        let xsk = identity._priv.x_priv@;
        let pubid = identity._pub.id.spec_value();
        assert(no_shares@.filter(user::import_filter(xsk, pubid)) =~= Seq::<
            LockedShare,
        >::empty());
        assert(user.imports@.len() == 0);
        let lnv = roots@.map_values(|ln: LockedNode| ln@);
        assert(lnv.len() == 1);
        assert(lnv[0] == roots@[0]@);
        assert(lnv.drop_last() =~= Seq::<fs::SpecLockedNode>::empty());
        let m = user::spec_user_fs_map(identity._priv, GOD_ID, user.imports@);
        assert(m.dom().contains(ROOT_ID));
        assert(m[ROOT_ID] == user::spec_fs_seed(identity._priv));
        assert(fs::spec_apply(Seq::<fs::SpecNode>::empty(), m, lnv.drop_last()) == Seq::<
            fs::SpecNode,
        >::empty());
        assert(lnv.last() == lnv[0]);
        assert(fs::spec_seed_for(Seq::<fs::SpecNode>::empty(), m, lnv[0]) == Some(
            user::spec_fs_seed(identity._priv),
        ));
        assert(fs::spec_unlock_node(lnv[0], fs_seed.bytes@) == Some(root@));
        assert(fs::spec_upsert(Seq::<fs::SpecNode>::empty(), root@) =~= seq![root@]);
        assert(user.fs@ =~= seq![root@]);
    }
    Signup {
        locked: LockedUser {
            encrypted_priv: Some(encrypted_priv),
            _pub: *identity.public(),
            shares: Vec::new(),
            pending_invite_intents: Vec::new(),
            roots,
        },
        user,
    }
}

/// Registers an admin from a pin-based welcome: the sealed bundle is
/// opened with the pin, re-sealed as a share addressed to the fresh
/// identity, and the unlock procedure assembles the user.
pub fn signup_as_admin_with_pin(pass: &[u8], welcome: &Welcome, pin: &[u8]) -> (r: Result<
    Signup,
    Error,
>)
    ensures
        password_lock::spec_unlock(welcome.imports, pin@) is None <==> r == Err::<Signup, Error>(
            Error::WrongPass,
        ),
        password_lock::spec_unlock(welcome.imports, pin@) matches Some(b) ==> {
            &&& ((codec::spec_parse_bundle(b) is None || b.len() >= 0x100000000) <==> r == Err::<
                Signup,
                Error,
            >(Error::BadJson))
            &&& (codec::spec_parse_bundle(b) is Some && b.len() < 0x100000000 ==> r is Ok)
        },
        r matches Ok(su) ==> {
            &&& identity::keypair_ok(su.user.identity._priv, su.user.identity._pub)
            &&& su.user.identity._pub.id == welcome.user_id
            &&& su.locked._pub == su.user.identity._pub
            &&& su.user.imports@.len() == 1
            &&& su.user.imports@[0].sender == su.user.identity._pub
            &&& ({
                let bytes = password_lock::spec_unlock(welcome.imports, pin@).unwrap();
                let parsed = codec::spec_parse_bundle(bytes);
                &&& parsed is Some
                &&& codec::entries_match(su.user.imports@[0].bundle.fs@, parsed.unwrap().0)
                &&& codec::entries_match(su.user.imports@[0].bundle.db@, parsed.unwrap().1)
            })
        },
{
    let bytes = match password_lock::unlock(&welcome.imports, pin) {
        Some(b) => b,
        None => {
            return Err(Error::WrongPass);
        },
    };
    let bundle = match codec::parse_bundle(bytes.as_slice()) {
        Some(b) => b,
        None => {
            return Err(Error::BadJson);
        },
    };
    let identity = Identity::generate(welcome.user_id);
    let encoded = codec::encode_bundle(&bundle);
    proof {
        codec::lemma_entries_bytes_len(bundle.fs@);
        codec::lemma_entries_bytes_len(bundle.db@);
        codec::lemma_parse_len(bytes@);
        assert(encoded@.len() == bytes@.len());
    }
    if (encoded.len() as u64) >= 0x100000000u64 {
        return Err(Error::BadJson);
    }
    let payload = identity.public().encrypt(encoded.as_slice());
    let export = Export::from_bundle(&bundle, identity.id());
    let ctx = ctx_to_sign(identity.public(), &export);
    let sig = identity.private().sign(ctx.as_slice());
    let share = LockedShare { sender: *identity.public(), export, payload, sig };
    let mut shares: Vec<LockedShare> = Vec::new();
    shares.push(share);
    let mut roots: Vec<LockedNode> = Vec::new();
    let n = welcome.nodes.len();
    for i in 0..n
        invariant
            n == welcome.nodes@.len(),
            roots@.len() == i,
        decreases n - i,
    {
        roots.push(welcome.nodes[i].duplicate());
    }
    let encoded_priv = codec::encode_private(identity.private());
    let encrypted_priv = password_lock::lock(encoded_priv.as_slice(), pass);
    let user = match user::unlock_with_params(
        identity.private(),
        identity.public(),
        shares.as_slice(),
        roots.as_slice(),
    ) {
        Ok(u) => u,
        Err(_) => vstd::pervasive::unreached(),
    };
    proof {
        use_type_invariant(&bundle.fs);
        use_type_invariant(&bundle.db);
        crate::codec::lemma_entries_bytes_len(bundle.fs@);
        crate::codec::lemma_entries_bytes_len(bundle.db@);
        crate::codec::lemma_parse_encode(bundle.fs@, bundle.db@);
        let xsk = identity._priv.x_priv@;
        let pubid = identity._pub.id.spec_value();
        let s0 = shares@[0];
        assert(identity::spec_asym_dec(xsk, s0.payload) == Some(encoded@));
        let parsed = crate::codec::spec_parse_bundle(encoded@).unwrap();
        assert forall|t: int| 0 <= t < bundle.fs@.len() implies (
        #[trigger] bundle.fs@[t]).0.spec_value() == parsed.0[t].0 by {}
        assert(bundle.fs@.map_values(|q: (Uid, Seed)| q.0.spec_value()) =~= parsed.0.map_values(
            |q: (u64, Seq<u8>)| q.0,
        ));
        assert forall|t: int| 0 <= t < bundle.db@.len() implies (
        #[trigger] bundle.db@[t]).0.spec_value() == parsed.1[t].0 by {}
        assert(bundle.db@.map_values(|q: (Uid, Seed)| q.0.spec_value()) =~= parsed.1.map_values(
            |q: (u64, Seq<u8>)| q.0,
        ));
        assert(s0.export.fs@.map_values(|u: Uid| u.spec_value()) =~= bundle.fs@.map_values(
            |q: (Uid, Seed)| q.0.spec_value(),
        ));
        assert(s0.export.db@.map_values(|u: Uid| u.spec_value()) =~= bundle.db@.map_values(
            |q: (Uid, Seed)| q.0.spec_value(),
        ));
        assert(user::accepts_import(xsk, pubid, s0));
        reveal_with_fuel(Seq::filter, 2);
        assert(shares@.drop_last() =~= Seq::<LockedShare>::empty());
        assert(shares@.filter(user::import_filter(xsk, pubid)) =~= seq![s0]);
        let imp = user.imports@[0];
        assert(user::import_matches(imp, s0, xsk));
        let parsed_pin = crate::codec::spec_parse_bundle(bytes@).unwrap();
        assert(crate::codec::entries_match(bundle.fs@, parsed_pin.0));
        assert(crate::codec::entries_match(bundle.db@, parsed_pin.1));
        assert(crate::codec::entries_match(imp.bundle.fs@, parsed.0));
        assert(crate::codec::entries_match(imp.bundle.db@, parsed.1));
        assert forall|t: int| 0 <= t < imp.bundle.fs@.len() implies (
        #[trigger] imp.bundle.fs@[t]).0.spec_value() == parsed_pin.0[t].0
            && imp.bundle.fs@[t].1.bytes@ == parsed_pin.0[t].1 by {
            assert(bundle.fs@[t].0.spec_value() == parsed.0[t].0);
            assert(bundle.fs@[t].0.spec_value() == parsed_pin.0[t].0);
        }
        assert(crate::codec::entries_match(imp.bundle.fs@, parsed_pin.0));
        assert forall|t: int| 0 <= t < imp.bundle.db@.len() implies (
        #[trigger] imp.bundle.db@[t]).0.spec_value() == parsed_pin.1[t].0
            && imp.bundle.db@[t].1.bytes@ == parsed_pin.1[t].1 by {
            assert(bundle.db@[t].0.spec_value() == parsed.1[t].0);
            assert(bundle.db@[t].0.spec_value() == parsed_pin.1[t].0);
        }
        assert(crate::codec::entries_match(imp.bundle.db@, parsed_pin.1));
    }
    Ok(
        Signup {
            locked: LockedUser {
                encrypted_priv: Some(encrypted_priv),
                _pub: *identity.public(),
                shares,
                pending_invite_intents: Vec::new(),
                roots,
            },
            user,
        },
    )
}

/// Registers an invitee of a pin-less intent: a fresh identity under the
/// intent's id, with no imports yet. The user is in the valid pending
/// state until the inviter finishes the intent against the published
/// public key and a later unlock delivers the share.
pub fn signup_from_intent(pass: &[u8], user_id: Uid) -> (r: Signup)
    ensures
        identity::keypair_ok(r.user.identity._priv, r.user.identity._pub),
        r.user.identity._pub.id == user_id,
        r.locked._pub == r.user.identity._pub,
        r.locked.shares@.len() == 0,
        r.locked.roots@.len() == 0,
        r.locked.encrypted_priv is Some,
        password_lock::spec_unlock(r.locked.encrypted_priv.unwrap(), pass@) == Some(
            r.user.identity._priv.x_priv@ + r.user.identity._priv.ed_priv@,
        ),
        r.user.imports@.len() == 0,
        r.user.exports@.len() == 0,
{
    let identity = Identity::generate(user_id);
    let encoded_priv = codec::encode_private(identity.private());
    let encrypted_priv = password_lock::lock(encoded_priv.as_slice(), pass);
    let no_shares: Vec<LockedShare> = Vec::new();
    let no_roots: Vec<LockedNode> = Vec::new();
    let user = match user::unlock_with_params(
        identity.private(),
        identity.public(),
        no_shares.as_slice(),
        no_roots.as_slice(),
    ) {
        Ok(u) => u,
        Err(_) => vstd::pervasive::unreached(),
    };
    proof {
        reveal_with_fuel(Seq::filter, 2);
        let xsk = identity._priv.x_priv@;
        let pubid = identity._pub.id.spec_value();
        assert(no_shares@.filter(user::import_filter(xsk, pubid)) =~= Seq::<
            LockedShare,
        >::empty());
        assert(no_shares@.filter(user::export_filter(pubid)) =~= Seq::<LockedShare>::empty());
    }
    Signup {
        locked: LockedUser {
            encrypted_priv: Some(encrypted_priv),
            _pub: *identity.public(),
            shares: Vec::new(),
            pending_invite_intents: Vec::new(),
            roots: Vec::new(),
        },
        user,
    }
}

/// Reopens a locked user with a password: the private identity is
/// unsealed and the unlock procedure reconstructs the user. It fails
/// with `WrongPass` exactly when there is no sealed identity or the
/// password does not open it, with `BadJson` exactly when the unsealed
/// bytes are no 64-byte identity, and succeeds otherwise.
pub fn unlock_with_pass(pass: &[u8], locked: &LockedUser) -> (r: Result<User, Error>)
    ensures
        locked.encrypted_priv is None ==> r == Err::<User, Error>(Error::WrongPass),
        locked.encrypted_priv matches Some(l) ==> {
            &&& (password_lock::spec_unlock(l, pass@) is None <==> r == Err::<User, Error>(
                Error::WrongPass,
            ))
            &&& (password_lock::spec_unlock(l, pass@) matches Some(b) ==> {
                &&& (b.len() != 64 <==> r == Err::<User, Error>(Error::BadJson))
                &&& (b.len() == 64 ==> r is Ok)
            })
        },
        r matches Ok(u) ==> {
            &&& u.identity._pub == locked._pub
            &&& password_lock::spec_unlock(locked.encrypted_priv.unwrap(), pass@) == Some(
                u.identity._priv.x_priv@ + u.identity._priv.ed_priv@,
            )
            &&& ({
                let xsk = u.identity._priv.x_priv@;
                let pubid = locked._pub.id.spec_value();
                &&& u.imports@.len() == locked.shares@.filter(
                    user::import_filter(xsk, pubid),
                ).len()
                &&& forall|k: int|
                    0 <= k < u.imports@.len() ==> user::import_matches(
                        #[trigger] u.imports@[k],
                        locked.shares@.filter(user::import_filter(xsk, pubid))[k],
                        xsk,
                    )
                &&& u.exports@.len() == locked.shares@.filter(user::export_filter(pubid)).len()
                &&& forall|k: int|
                    0 <= k < u.exports@.len() ==> user::export_matches(
                        #[trigger] u.exports@[k],
                        locked.shares@.filter(user::export_filter(pubid))[k],
                    )
                &&& u.fs@ == fs::spec_apply(
                    Seq::<fs::SpecNode>::empty(),
                    user::spec_user_fs_map(u.identity._priv, pubid, u.imports@),
                    locked.roots@.map_values(|ln: LockedNode| ln@),
                )
            })
        },
{
    let lock = match &locked.encrypted_priv {
        Some(l) => l,
        None => {
            return Err(Error::WrongPass);
        },
    };
    let bytes = match password_lock::unlock(lock, pass) {
        Some(b) => b,
        None => {
            return Err(Error::WrongPass);
        },
    };
    let _priv = match codec::parse_private(bytes.as_slice()) {
        Some(p) => p,
        None => {
            return Err(Error::BadJson);
        },
    };
    let user = match user::unlock_with_params(
        &_priv,
        &locked._pub,
        locked.shares.as_slice(),
        locked.roots.as_slice(),
    ) {
        Ok(u) => u,
        Err(_) => vstd::pervasive::unreached(),
    };
    proof {
        assert(bytes@ =~= _priv.x_priv@ + _priv.ed_priv@);
    }
    Ok(user)
}

} // verus!
