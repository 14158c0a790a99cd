use seedvault::db;
use seedvault::seeds::{Export, Sorted};
use seedvault::id::Uid;
use seedvault::identity::Identity;
use seedvault::user::User;

#[test]
fn namespace_seeds_differ_and_are_deterministic() {
    let identity = Identity::generate(Uid::new(7));
    let fs1 = User::fs_seed(identity.private());
    let fs2 = User::fs_seed(identity.private());
    let db1 = User::db_seed(identity.private());
    let db2 = User::db_seed(identity.private());
    assert_eq!(fs1, fs2);
    assert_eq!(db1, db2);
    assert_ne!(fs1, db1);
}

#[test]
fn entry_seed_is_path_independent() {
    let identity = Identity::generate(Uid::new(9));
    let root = User::db_seed(identity.private());
    let salt = db::Salt::generate();

    // path one: column seed straight from the root, then the salt
    let col_direct = db::derive_column_seed_from_root(&root, "users", "name");
    let entry_one = db::derive_entry_seed_from_column(&col_direct, &salt);

    // path two: table seed, then column seed, then the salt
    let table = db::derive_table_seed_from_root(&root, "users");
    let col_chained = db::derive_column_seed_from_table(&table, "name");
    let entry_two = db::derive_entry_seed_from_column(&col_chained, &salt);

    assert_eq!(col_direct, col_chained);
    assert_eq!(entry_one, entry_two);
}

#[test]
fn index_ids_are_deterministic_and_distinct() {
    let t1 = db::id_for_table("users");
    let t2 = db::id_for_table("users");
    assert_eq!(t1, t2);
    assert_ne!(db::id_for_table("users"), db::id_for_table("companies"));
    assert_ne!(
        db::id_for_column("users", "name"),
        db::id_for_column("users", "age")
    );
    assert_ne!(db::id_for_table("users"), db::id_for_column("users", "name"));

    let idx = db::Index::Column { table: "users".to_string(), column: "name".to_string() };
    assert_eq!(idx.as_id(), db::id_for_column("users", "name"));
}

#[test]
fn cell_round_trip_and_failures() {
    let identity = Identity::generate(Uid::new(3));
    let root = User::db_seed(identity.private());
    let col = db::derive_column_seed_from_root(&root, "t", "c");

    let cell = db::cell_encrypt(&col, b"hello cell");
    assert_eq!(db::cell_decrypt(&col, &cell).unwrap(), b"hello cell");

    // a corrupted cell does not authenticate
    let mut bad = cell.clone();
    let last = bad.len() - 1;
    bad[last] ^= 1;
    assert!(db::cell_decrypt(&col, &bad).is_none());

    // a different column seed cannot open it
    let other = db::derive_column_seed_from_root(&root, "t", "other");
    assert!(db::cell_decrypt(&other, &cell).is_none());
}

#[test]
fn export_hash_is_order_independent() {
    let a = Uid::new(10);
    let b = Uid::new(3);
    let c = Uid::new(7);
    let one = Export { receiver: Uid::new(1), fs: vec![a, b, c], db: vec![c, a] };
    let two = Export { receiver: Uid::new(1), fs: vec![c, a, b], db: vec![a, c] };
    assert_eq!(one.hash(), two.hash());

    let other_receiver = Export { receiver: Uid::new(2), fs: vec![a, b, c], db: vec![c, a] };
    assert_ne!(one.hash(), other_receiver.hash());

    let sorted = vec![a, b, c].sorted();
    assert_eq!(sorted, vec![b, c, a]);
}
