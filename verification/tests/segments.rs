use vox_node::cbor::{Decoder, Encoder};
use vox_node::channel::segments::{
    authors_bytes, cache_bytes, classify_payload, delivered_bytes, manifest_bytes,
    manifest_genesis, parse_authors, parse_cache, parse_delivered, parse_manifest,
    parse_receivers, parse_services, read_authors, read_receivers, read_services,
    receivers_bytes, services_bytes, ChainSlot, EntryKind, ReceiverChain, Rendered,
};
use vox_node::error::Error;
use vox_node::hash::COMPOSITE_PUB_LEN;
use vox_node::identity::CompositePublicKey;
use vox_node::table::Table;

fn key(n: u8) -> CompositePublicKey {
    CompositePublicKey { bytes: vec![n; COMPOSITE_PUB_LEN], fingerprint: [n; 32] }
}

#[test]
fn numbers_are_written_in_the_shortest_form() {
    let written = |n: u64| {
        let mut e = Encoder::new();
        e.uint(n);
        e.finish()
    };
    assert_eq!(written(0), vec![0x00]);
    assert_eq!(written(23), vec![0x17]);
    assert_eq!(written(24), vec![0x18, 24]);
    assert_eq!(written(255), vec![0x18, 0xff]);
    assert_eq!(written(256), vec![0x19, 1, 0]);
    assert_eq!(written(65536), vec![0x1a, 0, 1, 0, 0]);
    assert_eq!(written(1 << 32), vec![0x1b, 0, 0, 0, 1, 0, 0, 0, 0]);
    let read = |b: &[u8]| {
        let mut d = Decoder::new(b);
        let n = d.uint(Error::Other("number"))?;
        d.finish(Error::Other("end"))?;
        Ok(n)
    };
    for n in [0, 23, 24, 255, 256, 65535, 65536, u32::MAX as u64, 1 << 32, u64::MAX] {
        assert_eq!(read(&written(n)), Ok(n));
    }
    // A longer form than needed is not canonical.
    assert_eq!(read(&[0x18, 23]), Err(Error::Other("number")));
    assert_eq!(read(&[0x19, 0, 255]), Err(Error::Other("number")));
    assert_eq!(read(&[0x00, 0x00]), Err(Error::Other("end")));
    assert_eq!(read(&[0x40]), Err(Error::Other("number")));
}

#[test]
fn text_is_written_as_utf8() {
    let mut e = Encoder::new();
    e.text("caf\u{e9}");
    let b = e.finish();
    assert_eq!(b, vec![0x65, b'c', b'a', b'f', 0xc3, 0xa9]);
    let mut d = Decoder::new(&b);
    assert_eq!(d.text(Error::Other("text")).unwrap(), "caf\u{e9}");
    let mut d = Decoder::new(&[0x62, 0xc3, 0x28]);
    assert_eq!(d.text(Error::Other("text")), Err(Error::Other("text")));
}

#[test]
fn a_rendered_message_is_read_back() {
    let row = Rendered {
        entry_hash: [1; 32],
        author: [2; 32],
        created_millis: 1_700_000_000_123,
        text: "hello".to_string(),
    };
    assert_eq!(parse_cache(&cache_bytes(&row)).unwrap(), row);
    // A page of the first version holds seconds.
    let old = |secs: u64| {
        let mut e = Encoder::new();
        e.array(5);
        e.uint(1);
        e.digest(&[1; 32]);
        e.digest(&[2; 32]);
        e.uint(secs);
        e.text("hello");
        e.finish()
    };
    assert_eq!(parse_cache(&old(1_700_000_000)).unwrap().created_millis, 1_700_000_000_000);
    assert_eq!(parse_cache(&old(u64::MAX)).unwrap().created_millis, u64::MAX);
    assert_eq!(parse_cache(&[0x81]), Err(Error::MalformedAtRest("plaintext cache arity")));
    assert_eq!(
        parse_cache(&[0x85, 0x03]),
        Err(Error::MalformedAtRest("plaintext cache version"))
    );
}

#[test]
fn a_manifest_is_read_back() {
    let b = manifest_bytes(&[7, 7], "den", 1_700_000_000, 3);
    let m = parse_manifest(&b).unwrap();
    assert_eq!(m.genesis_wire, vec![7, 7]);
    assert_eq!(m.local_name, "den");
    assert_eq!((m.created, m.epoch), (1_700_000_000, 3));
    assert_eq!(manifest_genesis(&b).unwrap(), vec![7, 7]);
    let long = manifest_bytes(&[7, 7], &"x".repeat(129), 0, 0);
    assert_eq!(parse_manifest(&long), Err(Error::SizeLimitExceeded("channel local name")));
    assert!(parse_manifest(&manifest_bytes(&[7, 7], &"x".repeat(128), 0, 0)).is_ok());
    assert_eq!(parse_manifest(&[0x80]), Err(Error::MalformedAtRest("channel manifest arity")));
}

#[test]
fn a_delivery_ledger_is_read_back() {
    let mut t = Table::new();
    t.insert([2; 32], 5u64);
    t.insert([1; 32], 4);
    let back = parse_delivered(&delivered_bytes(&t)).unwrap();
    assert_eq!(back.len(), 2);
    assert_eq!(back.row(0), &([1; 32], 4));
    assert_eq!(back.row(1), &([2; 32], 5));
    assert_eq!(
        parse_delivered(&[0x82, 0x09, 0x80]).unwrap_err(),
        Error::MalformedAtRest("delivery ledger version")
    );
}

#[test]
fn authors_are_read_back_under_their_own_names() {
    let mut t = Table::new();
    t.insert([2; 32], key(2));
    t.insert([1; 32], key(1));
    let read = || read_authors(&authors_bytes(&t));
    assert_eq!(read().fault, None);
    let back = parse_authors(read(), vec![Ok(key(1)), Ok(key(2))]).unwrap();
    assert_eq!(back.len(), 2);
    assert_eq!(back.get(&[2; 32]), Some(&key(2)));
    assert_eq!(
        parse_authors(read(), vec![Ok(key(1)), Ok(key(3))]).unwrap_err(),
        Error::MalformedAtRest("channel author key/fingerprint")
    );
    assert_eq!(
        parse_authors(read(), vec![Err(Error::Storage), Ok(key(2))]).unwrap_err(),
        Error::Storage
    );
}

#[test]
fn services_are_read_back() {
    let mut t = Table::new();
    t.insert("22".to_string(), "127.0.0.1:22".to_string());
    t.insert("web".to_string(), "127.0.0.1:80".to_string());
    let read = || read_services(&services_bytes(&t));
    let addrs = || read().rows.iter().map(|r| Some(r.1.clone())).collect::<Vec<Option<String>>>();
    let back = parse_services(read(), addrs()).unwrap();
    assert_eq!(back.get(&"web".to_string()), Some(&"127.0.0.1:80".to_string()));
    assert_eq!(
        parse_services(read(), vec![None, None]).unwrap_err(),
        Error::MalformedAtRest("channel service address")
    );
}

#[test]
fn receiver_chains_are_read_back() {
    let chain = |n: u8, id: u64| ReceiverChain { author_id: [n; 32], chain_id: id, state: vec![n] };
    let mut t = Table::new();
    t.insert(ChainSlot { author: [2; 32], chain_id: 0 }, chain(2, 0));
    t.insert(ChainSlot { author: [1; 32], chain_id: 7 }, chain(1, 7));
    let read = read_receivers(&receivers_bytes(&t));
    assert_eq!(read.rows, vec![vec![1], vec![2]]);
    let back = parse_receivers(read, vec![Ok(chain(1, 7)), Ok(chain(2, 0))]).unwrap();
    assert_eq!(back.len(), 2);
    assert!(back.contains_key(&ChainSlot { author: [1; 32], chain_id: 7 }));
}

#[test]
fn a_payload_is_content_or_governance() {
    let mut content = b"vox/group-msg/v1".to_vec();
    content.push(0);
    assert_eq!(classify_payload(&content, false), Ok(EntryKind::Content));
    assert_eq!(classify_payload(&content, true), Ok(EntryKind::Content));
    assert_eq!(classify_payload(&[1, 2], true), Ok(EntryKind::Governance));
    assert_eq!(
        classify_payload(&[1, 2], false),
        Err(Error::MalformedAtRest(
            "entry payload is neither a group message nor a governance struct"
        ))
    );
}
