use smoltcp::wire::{IpProtocol, Ipv6Address, Ipv6Packet, TcpPacket};
use vox_node::error::Error;
use vox_node::interface::{
    syn_target, take_chunk, Conn, Netstack, Received, Target, CHUNK, MAX_CONNECTIONS,
    MAX_LISTENERS, SOCKET_BUFFER,
};

fn ula(last: u16) -> Ipv6Address {
    Ipv6Address::new(0xfd00, 0, 0, 0, 0, 0, 0, last)
}

fn target(last: u16, port: u16) -> Target {
    Target {
        to: ula(last).octets(),
        port,
    }
}

fn open_packet(port: u16) -> Vec<u8> {
    let mut ip = vec![0u8; 40 + 20];
    {
        let mut p = Ipv6Packet::new_unchecked(&mut ip);
        p.set_version(6);
        p.set_next_header(IpProtocol::Tcp);
        p.set_payload_len(20);
        p.set_hop_limit(64);
        p.set_src_addr(ula(2));
        p.set_dst_addr(ula(1));
    }
    {
        let mut t = TcpPacket::new_unchecked(&mut ip[40..]);
        t.set_src_port(49152);
        t.set_dst_port(port);
        t.set_header_len(20);
        t.set_syn(true);
        t.set_ack(false);
    }
    ip
}

#[test]
fn a_syn_is_recognised_and_a_synack_is_not() {
    let mut ip = open_packet(22);
    assert_eq!(syn_target(&ip), Some(target(1, 22)));
    {
        let mut t = TcpPacket::new_unchecked(&mut ip[40..]);
        t.set_ack(true);
    }
    assert_eq!(syn_target(&ip), None, "SYN+ACK is not an open");
    // Not TCP at all, and truncated garbage: answered `None`, never panicking.
    {
        let mut p = Ipv6Packet::new_unchecked(&mut ip);
        p.set_next_header(IpProtocol::Udp);
    }
    assert_eq!(syn_target(&ip), None);
    assert_eq!(syn_target(&[]), None);
    assert_eq!(syn_target(&[6u8; 12]), None);
}

#[test]
fn an_interface_needs_at_least_one_address() {
    assert!(matches!(
        Netstack::new(&vec![], 0),
        Err(Error::MalformedLink("an interface with no addresses"))
    ));
    assert!(matches!(
        Netstack::new(&vec![ula(1).octets()], 0),
        Err(Error::MalformedLink("no interface address could be set"))
    ));
    assert!(Netstack::new(&vec![ula(1).octets()], 1).is_ok());
}

#[test]
fn headers_are_read_where_they_stand() {
    // The port is in network order, and every bit of the address counts.
    assert_eq!(syn_target(&open_packet(0x1234)), Some(target(1, 0x1234)));
    assert_eq!(syn_target(&open_packet(65535)), Some(target(1, 65535)));
    // A payload that is announced longer than it is makes no packet.
    let mut long = open_packet(22);
    Ipv6Packet::new_unchecked(&mut long).set_payload_len(21);
    assert_eq!(syn_target(&long), None);
    // A payload that is announced shorter than a TCP header makes no segment.
    let mut short = open_packet(22);
    Ipv6Packet::new_unchecked(&mut short).set_payload_len(19);
    assert_eq!(syn_target(&short), None);
    // A header that says it is shorter than one is, or longer than the segment.
    let mut small = open_packet(22);
    TcpPacket::new_unchecked(&mut small[40..]).set_header_len(16);
    assert_eq!(syn_target(&small), None);
    let mut big = open_packet(22);
    TcpPacket::new_unchecked(&mut big[40..]).set_header_len(24);
    assert_eq!(syn_target(&big), None);
    // A RST without a SYN opens nothing.
    let mut rst = open_packet(22);
    {
        let mut t = TcpPacket::new_unchecked(&mut rst[40..]);
        t.set_syn(false);
        t.set_rst(true);
    }
    assert_eq!(syn_target(&rst), None);
}

#[test]
fn a_first_syn_is_held_and_replayed_once_something_listens() {
    let mut n = Netstack::new(&vec![ula(1).octets()], 1).unwrap();
    let first = open_packet(22);
    let other = open_packet(80);
    assert!(!n.consume(&first));
    assert!(!n.consume(&other));
    assert!(n.consume(&[1, 2, 3]), "what is malformed goes on");
    assert_eq!(n.receive(true), Received::Fresh);
    assert_eq!(n.take_wanted(), vec![target(1, 22), target(1, 80)]);
    assert!(n.take_wanted().is_empty());
    assert!(n.arm(target(1, 22), true));
    assert!(n.consume(&first), "now it goes straight on");
    assert_eq!(n.receive(false), Received::Stall);
    assert_eq!(n.receive(true), Received::Replay(first));
    assert_eq!(n.receive(true), Received::Fresh);
    assert!(!n.arm(target(1, 80), false));
    assert!(n.arm(target(1, 80), true));
    assert_eq!(n.receive(true), Received::Replay(other));
}

#[test]
fn the_interface_keeps_its_bounds() {
    let mut n = Netstack::new(&vec![ula(1).octets()], 1).unwrap();
    for port in 0..(MAX_LISTENERS as u16 + 5) {
        assert!(!n.consume(&open_packet(port)));
    }
    assert_eq!(n.held.len(), MAX_LISTENERS);
    let wanted = n.take_wanted();
    assert_eq!(wanted.len(), MAX_LISTENERS);
    for t in wanted {
        assert!(n.arm(t, true));
    }
    assert!(!n.has_place(&target(1, 5000)));
    assert!(!n.arm(target(1, 5000), true));
    assert!(n.has_place(&target(1, 3)), "a pair that listens may be armed again");
    for _ in 0..MAX_CONNECTIONS {
        assert!(n.take_established(&target(1, 3)));
        assert!(n.arm(target(1, 3), true));
    }
    assert!(!n.take_established(&target(1, 3)));
    assert!(!n.consume(&open_packet(3)), "a pair that was refused is held again");
    n.reaped();
    assert_eq!(n.conns, MAX_CONNECTIONS - 1);
}

#[test]
fn a_connection_carries_bytes_in_order_and_half_closes() {
    let mut c = Conn::new();
    assert!(c.wants_more());
    c.from_local(Some(vec![1, 2, 3]));
    c.from_local(Some(vec![4]));
    c.sent(2);
    assert_eq!(c.queued, vec![3, 4]);
    c.from_local(None);
    assert!(!c.closes(true), "not before everything went");
    c.sent(2);
    assert!(!c.closes(false));
    assert!(c.closes(true));
    assert!(!c.over(true, false));
    assert!(!c.over(false, true));
    assert!(c.over(false, false));
    c.from_local(Some(vec![0; SOCKET_BUFFER]));
    assert!(!c.wants_more());
    assert_eq!(take_chunk(&[1, 2]), vec![1, 2]);
    assert_eq!(take_chunk(&vec![7; CHUNK + 1]).len(), CHUNK);
}
