use vox_node::bootstrap::{BootstrapNode, BootstrapSet, MAX_ENDPOINTS};
use vox_node::error::Error;
use vox_node::link::b32::{b32_decode, b32_encode};
use vox_node::link::invite::{link_addresses, InviteLink};
use vox_node::link::scan::{split_once, split_text, trim, without_dots};
use vox_node::link::{
    anchor_file_specs, anchor_spec_address, anchor_specs, channel_of_hostname, merge_anchor_spec,
    merge_anchors_file, parse_anchor_spec, vox_hostname, AnchorLine, MAX_LINK_ANCHORS,
};

fn node(n: u8, addrs: &[&str]) -> BootstrapNode {
    BootstrapNode { id: [n; 32], endpoints: addrs.iter().map(|s| s.to_string()).collect() }
}

fn malformed<T: std::fmt::Debug>(r: Result<T, Error>, what: &'static str) {
    assert_eq!(r.unwrap_err(), Error::MalformedLink(what));
}

/// The addresses of a link, taken as they stand.
fn parse(text: &str) -> Result<InviteLink, Error> {
    let parsed: Vec<Option<String>> = link_addresses(text).into_iter().map(Some).collect();
    InviteLink::parse(text, &parsed)
}

#[test]
fn a_digest_is_spelled_in_fifty_two_letters() {
    assert_eq!(b32_encode(&[0; 32]), "a".repeat(52));
    assert_eq!(b32_encode(&[0xff; 32]), format!("{}q", "7".repeat(51)));
    let mut d = [0u8; 32];
    d[0] = 0b0000_1000;
    assert_eq!(&b32_encode(&d)[..2], "ba");
    for n in 0..=255u8 {
        let mut d = [n; 32];
        d[31] = 255 - n;
        d[7] = n.wrapping_mul(37);
        assert_eq!(b32_decode(&b32_encode(&d), "digest").unwrap(), d);
    }
}

#[test]
fn other_spellings_are_refused() {
    malformed(b32_decode("", "digest"), "digest");
    malformed(b32_decode(&"a".repeat(51), "digest"), "digest");
    malformed(b32_decode(&"a".repeat(53), "digest"), "digest");
    malformed(b32_decode(&"1".repeat(52), "digest"), "digest");
    // The last letter holds one bit; the other four must be clear.
    malformed(b32_decode(&format!("{}b", "a".repeat(51)), "digest"), "digest");
}

#[test]
fn a_hostname_names_its_channel() {
    let id = [0x5a; 32];
    let host = vox_hostname(&id);
    assert!(host.ends_with(".vox"));
    assert_eq!(channel_of_hostname(&host).unwrap(), id);
    assert_eq!(channel_of_hostname(&format!("  {host}.  ")).unwrap(), id);
    malformed(channel_of_hostname("example.com"), "not a .vox hostname");
    malformed(channel_of_hostname(&format!("www.{host}")), "a .vox hostname has one label");
    malformed(channel_of_hostname("short.vox"), "vox hostname");
}

#[test]
fn a_link_is_read_back() {
    let links = vec![
        InviteLink::new([1; 32], vec![node(2, &["10.0.0.1:1"])], None).unwrap(),
        InviteLink::new(
            [1; 32],
            vec![node(2, &["10.0.0.1:1", "[fd00::1]:2"]), node(3, &["10.0.0.2:3"])],
            Some([4; 32]),
        )
        .unwrap(),
    ];
    for l in links {
        let url = l.to_url();
        assert!(url.starts_with("vox://"));
        assert_eq!(parse(&url).unwrap(), l);
    }
}

#[test]
fn a_link_names_at_least_one_anchor_and_each_once() {
    malformed(InviteLink::new([1; 32], vec![], None), "invite link has no anchors");
    let many: Vec<BootstrapNode> =
        (0..MAX_LINK_ANCHORS as u8 + 1).map(|n| node(n, &["10.0.0.1:1"])).collect();
    malformed(InviteLink::new([1; 32], many, None), "invite link anchor count");
    let twice = vec![node(2, &["10.0.0.1:1"]), node(2, &["10.0.0.2:1"])];
    malformed(InviteLink::new([1; 32], twice, None), "invite link duplicate anchor");
}

#[test]
fn malformed_links_are_refused() {
    let url = InviteLink::new([1; 32], vec![node(2, &["10.0.0.1:1"])], None).unwrap().to_url();
    malformed(parse("https://example.com"), "invite link scheme");
    malformed(parse("vox://short?a=b"), "invite link channelID");
    malformed(parse(&format!("{url}&z=1")), "invite link unknown field");
    malformed(parse(&format!("{url}&z")), "invite link field");
    let id = b32_encode(&[2; 32]);
    let channel = b32_encode(&[1; 32]);
    malformed(parse(&format!("vox://{channel}")), "invite link has no anchors");
    malformed(parse(&format!("{url}&a={id}")), "invite link duplicate anchor");
    let other = b32_encode(&[3; 32]);
    malformed(parse(&format!("{url}&a={other}")), "invite link anchor has no address");
    let with = format!("{url}&r={other}");
    assert_eq!(parse(&with).unwrap().responder, Some([3; 32]));
    malformed(parse(&format!("{with}&r={other}")), "invite link duplicate responder");
    // An address that does not parse spoils the link.
    malformed(InviteLink::parse(&url, &vec![None]), "invite link anchor address");
}

#[test]
fn anchor_specs_are_parsed_and_merged() {
    let spec = format!(" {} @ 10.0.0.1:1 ", b32_encode(&[2; 32]));
    assert_eq!(anchor_spec_address(&spec), "10.0.0.1:1");
    let here = || Some("10.0.0.1:1".to_string());
    assert_eq!(parse_anchor_spec(&spec, here()).unwrap(), node(2, &["10.0.0.1:1"]));
    malformed(
        parse_anchor_spec("10.0.0.1:1", here()),
        "anchor spec: expected <fingerprint>@<multiaddr>",
    );
    malformed(parse_anchor_spec("x@10.0.0.1:1", here()), "anchor spec fingerprint");
    malformed(parse_anchor_spec(&spec, None), "anchor spec address");
    let mut set = BootstrapSet::new();
    merge_anchor_spec(&mut set, &spec, here()).unwrap();
    merge_anchor_spec(&mut set, &spec, here()).unwrap();
    merge_anchor_spec(&mut set, &spec, Some("10.0.0.2:2".to_string())).unwrap();
    assert_eq!(set.nodes, vec![node(2, &["10.0.0.1:1", "10.0.0.2:2"])]);
    assert_eq!(set.endpoint_count(), 2);
    let written = anchor_specs(&set.nodes[0]);
    assert_eq!(written[1], format!("{}@10.0.0.2:2", b32_encode(&[2; 32])));
}

#[test]
fn an_anchor_has_so_many_endpoints() {
    let spec = format!("{}@x", b32_encode(&[2; 32]));
    let mut set = BootstrapSet::new();
    for n in 0..MAX_ENDPOINTS {
        merge_anchor_spec(&mut set, &spec, Some(format!("10.0.0.1:{n}"))).unwrap();
    }
    assert_eq!(
        merge_anchor_spec(&mut set, &spec, Some("10.0.0.9:9".to_string())),
        Err(Error::SizeLimitExceeded("endpoint list"))
    );
    assert_eq!(set.nodes[0].endpoints.len(), 16);
}

#[test]
fn an_anchors_file_holds_a_spec_a_line() {
    let a = format!("{}@10.0.0.1:1", b32_encode(&[2; 32]));
    let b = format!("{}@10.0.0.2:2", b32_encode(&[3; 32]));
    let text = format!("# home\n\n  {a}\n#\n{b}  \n");
    let specs = anchor_file_specs(&text);
    assert_eq!(
        specs,
        vec![AnchorLine { line: 3, spec: a.clone() }, AnchorLine { line: 5, spec: b }]
    );
    let parsed: Vec<Option<String>> =
        specs.iter().map(|s| Some(anchor_spec_address(&s.spec))).collect();
    let mut set = BootstrapSet::new();
    merge_anchors_file(&mut set, Some(&text), &parsed).unwrap();
    assert_eq!(set.nodes, vec![node(2, &["10.0.0.1:1"]), node(3, &["10.0.0.2:2"])]);
    // What stands before a line that cannot be merged stays merged.
    let mut set = BootstrapSet::new();
    let broken = format!("{a}\n\nnonsense\n");
    assert_eq!(
        merge_anchors_file(&mut set, Some(&broken), &parsed),
        Err(Error::MalformedAnchorLine(3))
    );
    assert_eq!(set.nodes, vec![node(2, &["10.0.0.1:1"])]);
}

#[test]
fn a_malformed_anchor_line_is_named() {
    let mut set = BootstrapSet::new();
    let text = "# anchors\n\nnot-a-spec\n";
    assert_eq!(
        merge_anchors_file(&mut set, Some(text), &vec![None]),
        Err(Error::MalformedAnchorLine(3))
    );
    assert_eq!(set.nodes, vec![]);
    // No file is no error.
    merge_anchors_file(&mut set, None, &vec![]).unwrap();
    assert_eq!(set.nodes, vec![]);
    // Neither is one that only explains itself.
    merge_anchors_file(&mut set, Some("# none yet\n\n"), &vec![]).unwrap();
    assert_eq!(set.nodes, vec![]);
}

#[test]
fn text_is_cut_and_trimmed() {
    assert_eq!(trim("  a b\t\n"), "a b");
    assert_eq!(trim("   "), "");
    assert_eq!(without_dots("a.b.."), "a.b");
    assert_eq!(split_once("a=b=c", '='), Some(("a", "b=c")));
    assert_eq!(split_once("abc", '='), None);
    assert_eq!(split_text("a&b&", '&'), vec!["a".to_string(), "b".to_string(), String::new()]);
}
