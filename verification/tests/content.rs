use vox_node::cbor::Encoder;
use vox_node::content::{Content, KIND_TEXT, MAX_TEXT_LEN, VERSION_SECONDS};
use vox_node::error::Error;

#[test]
fn a_version_1_envelope_decodes_as_milliseconds() {
    let mut e = Encoder::new();
    e.array(4);
    e.uint(VERSION_SECONDS);
    e.uint(KIND_TEXT);
    e.uint(1_700_000_000);
    e.text("hello");
    let v1 = e.finish();

    let got = Content::from_canonical_slice(&v1).expect("a v1 envelope must still decode");
    assert_eq!(
        got.created_millis, 1_700_000_000_000,
        "a v1 timestamp is seconds and must be scaled, not taken as milliseconds"
    );
    assert_eq!(got.text, "hello");
}

#[test]
fn a_version_2_envelope_round_trips_in_milliseconds() {
    let c = Content::text(1_700_000_000_123, "hello").expect("build");
    let got = Content::from_canonical_slice(&c.to_canonical_vec()).expect("decode");
    assert_eq!(got.created_millis, 1_700_000_000_123);
    assert_eq!(got, c);
}

#[test]
fn two_messages_in_one_second_are_ordered() {
    let a = Content::text(1_700_000_000_004, "first").expect("build");
    let b = Content::text(1_700_000_000_009, "second").expect("build");
    assert!(a.created_millis < b.created_millis);
}

#[test]
fn an_unrepresentable_version_1_timestamp_is_refused() {
    let bytes = |secs: u64| {
        let mut e = Encoder::new();
        e.array(4);
        e.uint(VERSION_SECONDS);
        e.uint(KIND_TEXT);
        e.uint(secs);
        e.text("x");
        e.finish()
    };
    assert!(
        Content::from_canonical_slice(&bytes(u64::MAX)).is_err(),
        "a v1 timestamp that cannot be scaled must be refused, not clamped to u64::MAX"
    );
    assert!(
        Content::from_canonical_slice(&bytes(1_700_000_000)).is_ok(),
        "the same frame with a representable timestamp must decode"
    );
}

#[test]
fn each_envelope_fault_has_its_error() {
    let build = |n: u64, version: u64, kind: u64, text: &str| {
        let mut e = Encoder::new();
        e.array(n);
        e.uint(version);
        e.uint(kind);
        e.uint(7);
        e.text(text);
        Content::from_canonical_slice(&e.finish())
    };
    assert_eq!(
        build(3, 2, 1, "x"),
        Err(Error::MalformedBundle("content envelope arity"))
    );
    assert_eq!(
        build(4, 3, 1, "x"),
        Err(Error::MalformedBundle("content envelope version"))
    );
    assert_eq!(
        build(4, 2, 2, "x"),
        Err(Error::MalformedBundle("content envelope kind"))
    );
    let long: String = "a".repeat(MAX_TEXT_LEN + 1);
    assert_eq!(
        build(4, 2, 1, &long),
        Err(Error::SizeLimitExceeded("message text"))
    );
    assert_eq!(
        Content::text(1, &long),
        Err(Error::SizeLimitExceeded("message text"))
    );
    let mut bytes = Content::text(1, "x").unwrap().to_canonical_vec();
    bytes.push(0);
    assert_eq!(
        Content::from_canonical_slice(&bytes),
        Err(Error::Cbor("cbor"))
    );
    assert_eq!(
        Content::from_canonical_slice(&[0xa0]),
        Err(Error::Cbor("cbor"))
    );
}

#[test]
fn an_envelope_has_one_encoding() {
    let c = Content::text(24, "hi").unwrap();
    assert_eq!(
        c.to_canonical_vec(),
        vec![0x84, 0x02, 0x01, 0x18, 24, 0x62, b'h', b'i']
    );
    // The same number in a longer form is refused.
    assert!(
        Content::from_canonical_slice(&[0x84, 0x02, 0x01, 0x19, 0, 24, 0x62, b'h', b'i']).is_err()
    );
}
