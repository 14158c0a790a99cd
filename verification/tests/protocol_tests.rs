use std::cell::Cell;
use std::rc::Rc;

use seedvault::fs::{child_seed, lock_node, Entry, LockedNode, Node};
use seedvault::id::Uid;
use seedvault::protocol::{Error, Network, Protocol};
use seedvault::register::signup_as_god;
use seedvault::seeds::Seed;
use seedvault::user::User;

struct CountingNet {
    calls: Rc<Cell<usize>>,
    response: Vec<LockedNode>,
}

impl Network for CountingNet {
    fn fetch_subtree(&mut self, _id: Uid) -> Result<Vec<LockedNode>, Error> {
        self.calls.set(self.calls.get() + 1);
        Ok(self.response.clone())
    }
}

fn dir_node(id: u64, parent: u64, name: &str, seed: Seed, dirty: bool) -> Node {
    Node {
        id: Uid::new(id),
        parent_id: Uid::new(parent),
        created_at: 0,
        name: name.as_bytes().to_vec(),
        entry: Entry::Dir { seed },
        dirty,
    }
}

#[test]
fn dirty_refresh_fetches_once() {
    let god = signup_as_god(b"god_pass");
    let fs_seed = User::fs_seed(god.user.identity.private());

    // a dirty directory under the root, sealed with its derived seed
    let docs_seed = child_seed(&fs_seed, Uid::new(5));
    let docs_dirty = dir_node(5, 0, "docs", docs_seed, true);
    let locked_docs_dirty = lock_node(&docs_dirty, &docs_seed);

    // the server's refreshed subtree: the directory clean, plus a child
    let docs_clean = dir_node(5, 0, "docs", docs_seed, false);
    let inner_seed = child_seed(&docs_seed, Uid::new(6));
    let inner = dir_node(6, 5, "inner", inner_seed, false);
    let response = vec![
        lock_node(&docs_clean, &docs_seed),
        lock_node(&inner, &inner_seed),
    ];

    let mut locked = god.locked.clone();
    locked.roots.push(locked_docs_dirty);

    let calls = Rc::new(Cell::new(0usize));
    let net = CountingNet { calls: calls.clone(), response };
    let mut protocol = Protocol::new(
        god.user.identity.private().clone(),
        locked,
        Box::new(net),
    )
    .unwrap();

    // entering the dirty directory triggers exactly one fetch
    let view = protocol.cd_to_dir(&Uid::new(5)).unwrap();
    assert_eq!(calls.get(), 1);
    let items = view.items();
    assert_eq!(items.len(), 1);
    assert_eq!(items[0].id(), Uid::new(6));
    assert_eq!(items[0].name(), "inner");
    assert!(items[0].is_dir());

    // a second listing needs no further fetch
    let again = protocol.ls_cur_mut().unwrap();
    assert_eq!(calls.get(), 1);
    assert_eq!(again.items().len(), 1);
    assert_eq!(again.name(), "docs");
}

struct FlakyNet {
    calls: Rc<Cell<usize>>,
    response: Vec<LockedNode>,
}

impl Network for FlakyNet {
    fn fetch_subtree(&mut self, _id: Uid) -> Result<Vec<LockedNode>, Error> {
        self.calls.set(self.calls.get() + 1);
        if self.calls.get() == 1 {
            Err(Error::NoNetwork("offline".to_string()))
        } else {
            Ok(self.response.clone())
        }
    }
}

#[test]
fn dirty_refresh_failure_then_retry() {
    let god = signup_as_god(b"god_pass");
    let fs_seed = User::fs_seed(god.user.identity.private());

    let docs_seed = child_seed(&fs_seed, Uid::new(5));
    let docs_dirty = dir_node(5, 0, "docs", docs_seed, true);
    let locked_docs_dirty = lock_node(&docs_dirty, &docs_seed);

    let docs_clean = dir_node(5, 0, "docs", docs_seed, false);
    let response = vec![lock_node(&docs_clean, &docs_seed)];

    let mut locked = god.locked.clone();
    locked.roots.push(locked_docs_dirty);

    let calls = Rc::new(Cell::new(0usize));
    let net = FlakyNet { calls: calls.clone(), response };
    let mut protocol = Protocol::new(
        god.user.identity.private().clone(),
        locked,
        Box::new(net),
    )
    .unwrap();

    // the transport failure propagates; the node stays dirty
    assert_eq!(
        protocol.cd_to_dir(&Uid::new(5)),
        Err(Error::NoNetwork("offline".to_string()))
    );
    assert_eq!(calls.get(), 1);

    // a later listing retries the fetch and succeeds
    let view = protocol.ls_cur_mut().unwrap();
    assert_eq!(calls.get(), 2);
    assert_eq!(view.name(), "docs");
    assert_eq!(view.items().len(), 0);
}

#[test]
fn still_dirty_after_refresh_is_not_found() {
    let god = signup_as_god(b"god_pass");
    let fs_seed = User::fs_seed(god.user.identity.private());

    let docs_seed = child_seed(&fs_seed, Uid::new(5));
    let docs_dirty = dir_node(5, 0, "docs", docs_seed, true);
    let locked_docs_dirty = lock_node(&docs_dirty, &docs_seed);

    // the server answers, but the node it returns is still dirty
    let response = vec![lock_node(&docs_dirty, &docs_seed)];

    let mut locked = god.locked.clone();
    locked.roots.push(locked_docs_dirty);

    let calls = Rc::new(Cell::new(0usize));
    let net = CountingNet { calls: calls.clone(), response };
    let mut protocol = Protocol::new(
        god.user.identity.private().clone(),
        locked,
        Box::new(net),
    )
    .unwrap();

    // one refresh, no loop: the still-dirty node is reported missing
    assert_eq!(protocol.cd_to_dir(&Uid::new(5)), Err(Error::NotFound));
    assert_eq!(calls.get(), 1);
}

#[test]
fn navigation_over_the_root() {
    let god = signup_as_god(b"god_pass");
    let mut protocol = Protocol::new_no_network(
        god.user.identity.private().clone(),
        god.locked.clone(),
    )
    .unwrap();

    // the root is present and empty
    let view = protocol.ls_cur_mut().unwrap();
    assert_eq!(view.items().len(), 0);

    // going back from the root unsets the directory; the visible
    // roots (here, the root node itself) are listed under "~"
    let back = protocol.go_back().unwrap();
    assert_eq!(back.name(), "~");
    assert_eq!(back.items().len(), 1);
    assert!(back.breadcrumbs().is_empty());

    // a missing directory falls back to the root view
    let missing = protocol.cd_to_dir(&Uid::new(12345)).unwrap();
    assert_eq!(missing.items().len(), 0);
}

#[test]
fn chunk_decrypt_for_file_round_trip() {
    let god = signup_as_god(b"god_pass");
    let fs_seed = User::fs_seed(god.user.identity.private());

    let info = seedvault::fs::FileInfo {
        size: 10,
        ext: b"txt".to_vec(),
        key: [7u8; 32],
        base_nonce: [9u8; 12],
    };
    let chunk_ct = info.chunk_encrypt(3, b"chunk data");
    let file = Node {
        id: Uid::new(8),
        parent_id: Uid::new(0),
        created_at: 1,
        name: b"notes.txt".to_vec(),
        entry: Entry::File { info },
        dirty: false,
    };
    let file_seed = child_seed(&fs_seed, Uid::new(8));
    let locked_file = lock_node(&file, &file_seed);

    let mut locked = god.locked.clone();
    locked.roots.push(locked_file);

    let protocol = Protocol::new_no_network(
        god.user.identity.private().clone(),
        locked,
    )
    .unwrap();

    let pt = protocol
        .chunk_decrypt_for_file(&chunk_ct, &Uid::new(8), 3)
        .unwrap();
    assert_eq!(pt, b"chunk data");

    // a wrong chunk index fails to authenticate
    assert_eq!(
        protocol.chunk_decrypt_for_file(&chunk_ct, &Uid::new(8), 4),
        Err(Error::NoAccess)
    );
    // an unknown file is reported as missing
    assert_eq!(
        protocol.chunk_decrypt_for_file(&chunk_ct, &Uid::new(99), 3),
        Err(Error::NotFound)
    );
    // a directory cannot be chunk-decrypted
    assert_eq!(
        protocol.chunk_decrypt_for_file(&chunk_ct, &Uid::new(0), 3),
        Err(Error::BadOperation)
    );
}
