use seedvault::codec;
use seedvault::db::Index;
use seedvault::id::Uid;
use seedvault::identity::Identity;
use seedvault::register::{signup_as_admin_with_pin, signup_as_god, unlock_with_pass};
use seedvault::seeds::{ctx_to_sign, Bundle, Export, LockedShare, Seed, Welcome, ROOT_ID};
use seedvault::user::{unlock_with_params, User};

#[test]
fn god_announces_admin_decrypts() {
    let god = signup_as_god(b"god_pass");
    let invite = god.user.invite_with_seeds_for_email_and_pin(
        "alice.mail.com",
        b"1234567890",
        None,
        None,
    );
    let welcome = Welcome::from_invite(&invite, god.locked.roots.clone());
    let admin = signup_as_admin_with_pin(b"admin_pass", &welcome, b"1234567890").unwrap();

    for i in 0..10 {
        let message = format!("hi there {i}");
        let cell = god
            .user
            .encrypt_db_entry("messages", message.as_bytes(), "text")
            .unwrap();
        let god_pt = god.user.decrypt_db_entry("messages", &cell, "text").unwrap();
        let admin_pt = admin
            .user
            .decrypt_db_entry("messages", &cell, "text")
            .unwrap();
        assert_eq!(god_pt, message.as_bytes());
        assert_eq!(admin_pt, message.as_bytes());
    }
}

#[test]
fn full_root_export() {
    let god = signup_as_god(b"god_pass");
    let invite = god.user.invite_with_seeds_for_email_and_pin(
        "alice.mail.com",
        b"1234567890",
        None,
        None,
    );
    let welcome = Welcome::from_invite(&invite, god.locked.roots.clone());
    let admin = signup_as_admin_with_pin(b"admin_pass", &welcome, b"1234567890").unwrap();

    assert_eq!(admin.user.imports.len(), 1);
    let bundle = &admin.user.imports[0].bundle;
    assert_eq!(bundle.db.len(), 1);
    let root_seed = bundle.db.get(Uid::new(ROOT_ID)).unwrap();
    assert_eq!(root_seed, User::db_seed(god.user.identity.private()));
}

fn user_from_share(identity: &Identity, share: LockedShare) -> User {
    unlock_with_params(identity.private(), identity.public(), &[share], &[]).unwrap()
}

#[test]
fn selective_reshare_and_attenuation() {
    let god = signup_as_god(b"god_pass");

    // god fully shares with adam
    let adam_identity = Identity::generate(Uid::new(11));
    let share = god
        .user
        .export_seeds_to_identity(None, None, adam_identity.public());
    let adam = user_from_share(&adam_identity, share);

    // adam invites eve with four specific db objects
    let eve_request = [
        Index::Table { table: "users".to_string() },
        Index::Table { table: "companies".to_string() },
        Index::Column { table: "sales".to_string(), column: "id".to_string() },
        Index::Column { table: "requests".to_string(), column: "content".to_string() },
    ];
    let invite = adam.invite_with_seeds_for_email_and_pin(
        "eve.mail.com",
        b"666",
        Some(&[]),
        Some(&eve_request),
    );
    let welcome = Welcome::from_invite(&invite, Vec::new());
    let eve = signup_as_admin_with_pin(b"eve_pass", &welcome, b"666").unwrap();

    let eve_db = &eve.user.imports[0].bundle.db;
    assert_eq!(eve_db.len(), 4);
    assert!(eve_db.get(Uid::new(ROOT_ID)).is_none());
    for idx in &eve_request {
        assert!(eve_db.get(idx.as_id()).is_some());
    }

    // eve invites cain, requesting more than she holds
    let cain_request = [
        Index::Column { table: "users".to_string(), column: "name".to_string() },
        Index::Column { table: "users".to_string(), column: "age".to_string() },
        Index::Table { table: "companies".to_string() },
        Index::Table { table: "sales".to_string() },
        Index::Table { table: "123".to_string() },
        Index::Column { table: "abc".to_string(), column: "def".to_string() },
    ];
    let invite = eve.user.invite_with_seeds_for_email_and_pin(
        "cain.mail.com",
        b"777",
        Some(&[]),
        Some(&cain_request),
    );
    let welcome = Welcome::from_invite(&invite, Vec::new());
    let cain = signup_as_admin_with_pin(b"cain_pass", &welcome, b"777").unwrap();

    let cain_db = &cain.user.imports[0].bundle.db;
    assert_eq!(cain_db.len(), 3);
    assert!(cain_db.get(cain_request[0].as_id()).is_some());
    assert!(cain_db.get(cain_request[1].as_id()).is_some());
    assert!(cain_db.get(cain_request[2].as_id()).is_some());
    assert!(cain_db.get(cain_request[3].as_id()).is_none());
    assert!(cain_db.get(cain_request[4].as_id()).is_none());
    assert!(cain_db.get(cain_request[5].as_id()).is_none());
}

#[test]
fn forged_share_is_dropped_not_fatal() {
    let god = signup_as_god(b"god_pass");
    let receiver = Identity::generate(Uid::new(21));
    let share = god
        .user
        .export_seeds_to_identity(None, None, receiver.public());

    let mut forged = share.clone();
    forged.sig.bytes[0] ^= 0xff;

    let clean = unlock_with_params(receiver.private(), receiver.public(), &[share.clone()], &[])
        .unwrap();
    let with_forged = unlock_with_params(
        receiver.private(),
        receiver.public(),
        &[share, forged],
        &[],
    )
    .unwrap();
    assert_eq!(clean, with_forged);
    assert_eq!(with_forged.imports.len(), 1);
}

#[test]
fn quantity_mismatch_rejected() {
    let sender = Identity::generate(Uid::new(31));
    let receiver = Identity::generate(Uid::new(32));

    // the bundle holds two filesystem seeds, but the export declares one
    let id_a = Uid::new(100);
    let id_b = Uid::new(200);
    let mut bundle = Bundle::new();
    bundle.set_fs(id_a, Seed::generate());
    bundle.set_fs(id_b, Seed::generate());
    let encoded = codec::encode_bundle(&bundle);
    let payload = receiver.public().encrypt(&encoded);
    let export = Export { receiver: receiver.id(), fs: vec![id_a], db: vec![] };
    let ctx = ctx_to_sign(sender.public(), &export);
    let sig = sender.private().sign(&ctx);
    let share = LockedShare { sender: *sender.public(), export, payload, sig };

    let user = unlock_with_params(receiver.private(), receiver.public(), &[share], &[]).unwrap();
    assert_eq!(user.imports.len(), 0);
}

#[test]
fn unlock_with_pass_round_trip() {
    let god = signup_as_god(b"god_pass");
    let reopened = unlock_with_pass(b"god_pass", &god.locked).unwrap();
    assert_eq!(reopened.identity, god.user.identity);

    assert_eq!(
        unlock_with_pass(b"wrong", &god.locked).unwrap_err(),
        seedvault::register::Error::WrongPass
    );
}

#[test]
fn wrong_pin_rejected() {
    let god = signup_as_god(b"god_pass");
    let invite = god.user.invite_with_seeds_for_email_and_pin(
        "alice.mail.com",
        b"1234567890",
        None,
        None,
    );
    let welcome = Welcome::from_invite(&invite, god.locked.roots.clone());
    let r = signup_as_admin_with_pin(b"admin_pass", &welcome, b"999");
    assert_eq!(r.unwrap_err(), seedvault::register::Error::WrongPass);
}

#[test]
fn finish_invite_intents_skips_unverified() {
    let god = signup_as_god(b"god_pass");

    let mut intent = god.user.start_invite_intent_with_seeds_for_ref_src(
        "bob.mail.com",
        Uid::new(77),
        None,
        None,
    );

    // the invitee registers in the pending state and publishes a key
    let invitee = seedvault::register::signup_from_intent(b"bob_pass", Uid::new(77));
    assert_eq!(invitee.user.imports.len(), 0);
    intent.receiver = Some(invitee.locked._pub);

    // a tampered intent must be skipped; the honest one must be finished
    let mut tampered = intent.clone();
    tampered.ref_src = "mallory.mail.com".to_string();

    let finished = god.user.finish_invite_intents(&[intent, tampered]);
    assert_eq!(finished.len(), 1);
    assert_eq!(finished[0].ref_src, "bob.mail.com");

    let invitee_user = user_from_share(&invitee.user.identity, finished[0].share.clone());
    assert_eq!(invitee_user.imports.len(), 1);
    let bundle = &invitee_user.imports[0].bundle;
    assert_eq!(
        bundle.db.get(Uid::new(ROOT_ID)).unwrap(),
        User::db_seed(god.user.identity.private())
    );
}

#[test]
fn db_entry_error_variants() {
    let god = signup_as_god(b"god_pass");

    // too short to carry a salt
    assert_eq!(
        god.user.decrypt_db_entry("t", &[0u8; 10], "c").unwrap_err(),
        seedvault::user::Error::BadJson
    );

    // long enough, but not an authentic cell
    assert_eq!(
        god.user.decrypt_db_entry("t", &[0u8; 64], "c").unwrap_err(),
        seedvault::user::Error::BadKey
    );

    // a user with no imports has no access
    let stranger = Identity::generate(Uid::new(55));
    let user = unlock_with_params(stranger.private(), stranger.public(), &[], &[]).unwrap();
    let cell = god.user.encrypt_db_entry("t", b"secret", "c").unwrap();
    assert_eq!(
        user.decrypt_db_entry("t", &cell, "c").unwrap_err(),
        seedvault::user::Error::NoAccess
    );
}

#[test]
fn bundle_frame_round_trip() {
    let mut bundle = Bundle::new();
    bundle.set_fs(Uid::new(1), Seed::generate());
    bundle.set_db(Uid::new(2), Seed::generate());
    bundle.set_db(Uid::new(3), Seed::generate());
    let encoded = codec::encode_bundle(&bundle);
    let parsed = codec::parse_bundle(&encoded).unwrap();
    assert_eq!(parsed, bundle);

    // truncated frames and trailing bytes are rejected
    assert!(codec::parse_bundle(&encoded[..encoded.len() - 1]).is_none());
    let mut longer = encoded.clone();
    longer.push(0);
    assert!(codec::parse_bundle(&longer).is_none());
}

#[test]
fn bundle_map_replaces_on_same_id() {
    let id = Uid::new(42);
    let first = Seed::generate();
    let second = Seed::generate();
    let mut bundle = Bundle::new();
    bundle.set_db(id, first);
    bundle.set_db(id, second);
    assert_eq!(bundle.db.len(), 1);
    assert_eq!(bundle.db.get(id).unwrap(), second);
}
