//! What holds of the packets that an interface sees: which of them open a connection, and
//! where to.

use vstd::prelude::*;

use crate::cbor;
use crate::interface::{self, Netstack, Target, MAX_LISTENERS};
use crate::lists;
use crate::table::Key;

verus! {

/// Whether a packet opens a connection is read of its header and of the payload that it
/// announces: whatever stands behind that makes no difference, nor to where it goes.
pub proof fn law_what_is_behind_does_not_matter(p: Seq<u8>, more: Seq<u8>)
    requires
        interface::is_ipv6(p),
    ensures
        interface::opens(p + more) == interface::opens(p),
        interface::target_key(p + more) == interface::target_key(p),
{
    let q = p + more;
    assert(q[4] == p[4] && q[5] == p[5] && q[6] == p[6]);
    assert(interface::segment_of(q) =~= interface::segment_of(p));
    assert(interface::address_of(q) =~= interface::address_of(p));
}

/// A segment begins a connection exactly if its flags hold SYN and not ACK, whatever the
/// others are.
pub proof fn law_syn_without_ack_opens(p: Seq<u8>)
    requires
        interface::is_ipv6(p),
        p[6] == 6,
        interface::is_tcp(interface::segment_of(p)),
    ensures
        ({
            let flags = interface::segment_of(p)[13];
            interface::opens(p) <==> flags & 0x02 != 0 && flags & 0x10 == 0
        }),
{
    let flags: u8 = interface::segment_of(p)[13];
    assert((flags / 2) % 2 == 1 <==> flags & 0x02 != 0) by (bit_vector);
    assert((flags / 16) % 2 == 0 <==> flags & 0x10 == 0) by (bit_vector);
}

/// What is too short for its header, or for the payload that it announces, or carries
/// something else than TCP, opens nothing.
pub proof fn law_malformed_opens_nothing(p: Seq<u8>)
    requires
        p.len() < 60 || p.len() < 40 + 256 * p[4] + p[5] || p[6] != 6 || 256 * p[4] + p[5] < 20,
    ensures
        !interface::opens(p),
{
}

/// A packet goes to the 16 bytes behind the sender's address and to the port in the second
/// pair of bytes of its segment, the higher byte first; two packets have one key exactly if
/// both are the same.
pub proof fn law_key_is_address_and_port(p: Seq<u8>, q: Seq<u8>, s: Target, t: Target)
    requires
        interface::opens_to(p, s),
        interface::opens_to(q, t),
    ensures
        forall|i: int| 0 <= i < 16 ==> #[trigger] s.to@[i] == p[24 + i],
        s.port == p[42] * 256 + p[43],
        interface::target_key(p) == s.key_bytes(),
        interface::target_key(p) == interface::target_key(q) <==> s.to@ == t.to@ && s.port
            == t.port,
{
    let a = interface::target_key(p);
    let b = interface::target_key(q);
    assert(interface::address_of(p).len() == 16 && interface::address_of(q).len() == 16);
    cbor::lemma_radix_values();
    cbor::lemma_value_be(s.port as nat, 2);
    cbor::lemma_value_be(t.port as nat, 2);
    if a == b {
        assert(a.subrange(0, 16) =~= s.to@);
        assert(b.subrange(0, 16) =~= t.to@);
        assert(a.subrange(16, a.len() as int) =~= cbor::be(s.port as nat, 2));
        assert(b.subrange(16, b.len() as int) =~= cbor::be(t.port as nat, 2));
    }
}

/// A socket may be put to listen for a pair that has one already, and for any other as long
/// as there is a place.
pub proof fn law_place_is_kept_for_the_pair(n: Netstack, t: Target)
    ensures
        n.listeners.has(t.key_bytes()) ==> n.may_arm(t),
        n.listeners.rows().len() < MAX_LISTENERS ==> n.may_arm(t),
        n.listeners.rows().len() >= MAX_LISTENERS && !n.listeners.has(t.key_bytes()) ==> !n.may_arm(
            t,
        ),
{
}

/// The first packet that is held goes on exactly if something listens for its pair.
pub proof fn law_first_held_goes_on(n: Netstack)
    ensures
        n.held@.len() == 0 ==> !interface::ready(n),
        n.held@.len() > 0 ==> (interface::ready(n) <==> n.listening.map().contains_key(
            interface::target_key(n.held@[0]@),
        )),
{
}

/// A pair waits for a socket exactly if it is wanted and nothing listens for it.
pub proof fn law_unserved_pairs_wait(n: Netstack, i: int, t: Target)
    requires
        0 <= i < n.wanted.rows().len(),
    ensures
        interface::keys_of(n.wanted.rows()).len() == n.wanted.rows().len(),
        interface::keys_of(n.wanted.rows())[i] == n.wanted.rows()[i].0,
        interface::unserved(n)(t) <==> !n.listeners.map().contains_key(t.key_bytes()),
        lists::pick(interface::keys_of(n.wanted.rows()), interface::unserved(n)).contains(t) <==> {
            &&& exists|k: int| 0 <= k < n.wanted.rows().len() && (#[trigger] n.wanted.rows()[k]).0 == t
            &&& !n.listeners.map().contains_key(t.key_bytes())
        },
{
    let ks = interface::keys_of(n.wanted.rows());
    lists::lemma_pick_contains(ks, interface::unserved(n), t);
    if ks.contains(t) {
        let k = ks.index_of(t);
        assert(n.wanted.rows()[k].0 == t);
    }
    if exists|k: int| 0 <= k < n.wanted.rows().len() && (#[trigger] n.wanted.rows()[k]).0 == t {
        let k = choose|k: int|
            0 <= k < n.wanted.rows().len() && (#[trigger] n.wanted.rows()[k]).0 == t;
        assert(ks[k] == t);
    }
}

} // verus!
