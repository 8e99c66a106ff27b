use vox_node::error::Error;
use vox_node::hash::{digest_of, is_before, same_bytes, same_digest};
use vox_node::headless::{
    from_seeds, identity_file, load_or_create_identity, IdentityRead, IdentityStep,
};
use vox_node::identity::CompositePublicKey;
use vox_node::joinstream::exchange::{InitNames, OneTimeUse};
use vox_node::keypackage::{Framed, KeyPackage, RingUse, MAX_KEY_PACKAGE};
use vox_node::table::Table;

fn package() -> KeyPackage {
    KeyPackage { recipient: [5; 32], initial: vec![1, 2], sealed: vec![3] }
}

fn framed(body: Vec<u8>) -> Result<Framed, Error> {
    Ok(Framed { key_package: true, body })
}

#[test]
fn a_key_package_is_read_back() {
    let body = package().body();
    assert_eq!(&body[..4], &[0x84, 0x01, 0x58, 0x20]);
    assert_eq!(KeyPackage::from_wire(&body, framed(body.clone())).unwrap(), package());
    assert_eq!(package().initial_message(), &[1, 2]);
    assert!(KeyPackage::is_key_package(&framed(vec![])));
    assert!(!KeyPackage::is_key_package(&Ok(Framed { key_package: false, body: vec![] })));
    assert!(!KeyPackage::is_key_package(&Err(Error::Storage)));
}

#[test]
fn malformed_key_packages_are_refused() {
    let body = package().body();
    let read = |b: Vec<u8>| KeyPackage::from_wire(&b.clone(), framed(b)).unwrap_err();
    assert_eq!(
        KeyPackage::from_wire(&vec![0; MAX_KEY_PACKAGE + 1], framed(body.clone())),
        Err(Error::SizeLimitExceeded("key-package"))
    );
    assert_eq!(
        KeyPackage::from_wire(&body, Ok(Framed { key_package: false, body: body.clone() })),
        Err(Error::MalformedBundle("not a key-package"))
    );
    assert_eq!(KeyPackage::from_wire(&body, Err(Error::Storage)), Err(Error::Storage));
    assert_eq!(read(vec![0x83]), Error::MalformedBundle("key-package arity"));
    assert_eq!(read(vec![0x84, 0x02]), Error::MalformedBundle("key-package version"));
    assert_eq!(
        read(vec![0x84, 0x01, 0x41, 0x00]),
        Error::MalformedBundle("key-package recipient")
    );
}

#[test]
fn a_key_package_is_sealed_from_both_halves() {
    assert_eq!(
        KeyPackage::seal([5; 32], Ok(vec![1, 2]), Ok(vec![3])).unwrap(),
        package()
    );
    assert_eq!(
        KeyPackage::seal([5; 32], Err(Error::Storage), Ok(vec![3])),
        Err(Error::Storage)
    );
    assert_eq!(
        KeyPackage::seal([5; 32], Ok(vec![1]), Err(Error::AtRestLocked)),
        Err(Error::AtRestLocked)
    );
}

#[test]
fn a_ring_opens_what_names_its_own_prekeys() {
    let names = InitNames { signed_prekey_id: 3, one_time_prekey_id: Some(8) };
    assert_eq!(
        KeyPackage::open_with_ring(Ok(names), OneTimeUse::Fresh, true),
        Ok(RingUse { signed: 3, one_time: Some(8), reused: false })
    );
    assert_eq!(
        KeyPackage::open_with_ring(Ok(names), OneTimeUse::Reused, true),
        Ok(RingUse { signed: 3, one_time: Some(8), reused: true })
    );
    assert_eq!(
        KeyPackage::open_with_ring(Ok(names), OneTimeUse::Unknown, true),
        Err(Error::MalformedBundle("key-package names a one-time prekey this ring never held"))
    );
    assert_eq!(
        KeyPackage::open_with_ring(Ok(names), OneTimeUse::Fresh, false),
        Err(Error::MalformedBundle("key-package names a signed prekey this ring does not hold"))
    );
    let bare = InitNames { signed_prekey_id: 3, one_time_prekey_id: None };
    assert_eq!(
        KeyPackage::open_with_ring(Ok(bare), OneTimeUse::Unknown, true),
        Ok(RingUse { signed: 3, one_time: None, reused: false })
    );
}

#[test]
fn a_sealed_package_reaches_its_ring() {
    let p = KeyPackage::seal([5; 32], Ok(vec![1, 2]), Ok(vec![3])).unwrap();
    let frame = framed(p.body());
    let read = KeyPackage::from_wire(&p.body(), frame).unwrap();
    assert_eq!(read.recipient, [5; 32]);
    assert_eq!(read.initial_message(), &[1, 2]);
    assert_eq!(read.sealed, vec![3]);
}

#[test]
fn a_node_identity_is_two_seeds_in_a_file() {
    assert_eq!(identity_file("/var/vox"), "/var/vox/node-identity.key");
    assert_eq!(identity_file("/var/vox/"), "/var/vox/node-identity.key");
    let mut seeds = vec![1u8; 32];
    seeds.extend_from_slice(&[2u8; 32]);
    assert_eq!(from_seeds(&seeds, "f").unwrap(), ([1; 32], [2; 32]));
    assert_eq!(
        load_or_create_identity(IdentityRead::Found(seeds), "f"),
        Ok(IdentityStep::Use([1; 32], [2; 32]))
    );
    assert_eq!(load_or_create_identity(IdentityRead::Missing, "f"), Ok(IdentityStep::Make));
    assert_eq!(
        load_or_create_identity(IdentityRead::Found(vec![1; 63]), "f"),
        Err(Error::Path {
            op: "read node identity",
            detail: "f: not a node identity file".to_string(),
        })
    );
    assert_eq!(
        load_or_create_identity(IdentityRead::Failed("denied".to_string()), "f"),
        Err(Error::Path { op: "read node identity", detail: "f: denied".to_string() })
    );
}

#[test]
fn digests_are_compared_by_their_bytes() {
    assert_eq!(digest_of(&[7; 32]), Some([7; 32]));
    assert_eq!(digest_of(&[7; 31]), None);
    assert!(same_bytes(&[1, 2], &[1, 2]));
    assert!(!same_bytes(&[1, 2], &[1, 2, 3]));
    assert!(same_digest(&[1; 32], &[1; 32]));
    assert!(!same_digest(&[1; 32], &[2; 32]));
    assert!(is_before(&[1], &[1, 0]));
    assert!(is_before(&[1, 9], &[2]));
    assert!(!is_before(&[2], &[2]));
}

#[test]
fn a_key_is_the_same_by_its_bytes() {
    let a = CompositePublicKey { bytes: vec![1], fingerprint: [1; 32] };
    let b = CompositePublicKey { bytes: vec![2], fingerprint: [1; 32] };
    assert!(a.same_key(&a.clone()));
    assert!(!a.same_key(&b));
    assert_eq!(a.fingerprint(), [1; 32]);
}

#[test]
fn a_table_keeps_its_rows_in_key_order() {
    let mut t: Table<[u8; 32], u64> = Table::new();
    assert!(t.insert([3; 32], 30));
    assert!(t.insert([1; 32], 10));
    assert!(t.insert([2; 32], 20));
    assert!(!t.insert([1; 32], 11));
    assert_eq!(t.len(), 3);
    assert_eq!(t.row(0), &([1; 32], 11));
    assert_eq!(t.row(2), &([3; 32], 30));
    assert_eq!(t.get(&[2; 32]), Some(&20));
    assert!(t.remove(&[2; 32]));
    assert!(!t.remove(&[2; 32]));
    assert!(!t.contains_key(&[2; 32]));
    assert_eq!(t.find(&[3; 32]), Some(1));
    let mut words: Table<String, u8> = Table::new();
    words.insert("b".to_string(), 2);
    words.insert("a".to_string(), 1);
    assert_eq!(words.row(0).0, "a");
}
