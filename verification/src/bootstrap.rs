//! Bootstrap nodes: the anchors a room's records are published to and read from.

use vstd::prelude::*;

use crate::hash::Digest32;
use crate::link::scan;

verus! {

/// The most addresses one node is listed with.
pub const MAX_ENDPOINTS: usize = 16;

/// A bootstrap node: who it is, and where it listens, in multiaddr text.
#[derive(Debug, PartialEq, Eq)]
pub struct BootstrapNode {
    /// Its identity.
    pub id: Digest32,
    /// Its endpoints.
    pub endpoints: Vec<String>,
}

/// A set of bootstrap nodes, one entry per identity, in the order they were added.
#[derive(Debug, PartialEq, Eq)]
pub struct BootstrapSet {
    /// The nodes.
    pub nodes: Vec<BootstrapNode>,
}

impl BootstrapNode {
    /// The node by content.
    pub open spec fn view(&self) -> (Seq<u8>, Seq<Seq<char>>) {
        (self.id@, scan::texts(self.endpoints@))
    }

    /// A copy of the node.
    pub fn copy(&self) -> (n: BootstrapNode)
        ensures
            n@ == self@,
            n.id == self.id,
            n.endpoints@.len() == self.endpoints@.len(),
    {
        let mut endpoints: Vec<String> = Vec::new();
        let mut i: usize = 0;
        while i < self.endpoints.len()
            invariant
                i <= self.endpoints@.len(),
                endpoints@.len() == i,
                forall|j: int| 0 <= j < i ==> (#[trigger] endpoints@[j])@ == self.endpoints@[j]@,
            decreases self.endpoints@.len() - i,
        {
            endpoints.push(self.endpoints[i].clone());
            i = i + 1;
        }
        assert(scan::texts(endpoints@) =~= scan::texts(self.endpoints@));
        BootstrapNode { id: self.id, endpoints }
    }
}

/// Nodes by content.
pub open spec fn nodes_view(v: Seq<BootstrapNode>) -> Seq<(Seq<u8>, Seq<Seq<char>>)> {
    Seq::new(v.len(), |i: int| v[i]@)
}

impl BootstrapSet {
    /// A set with nothing in it.
    pub fn new() -> (s: BootstrapSet)
        ensures
            s.nodes@.len() == 0,
    {
        BootstrapSet { nodes: Vec::new() }
    }

    /// How many endpoints the nodes list between them.
    pub fn endpoint_count(&self) -> (n: u128)
        ensures
            n == endpoints_in(self.nodes@),
    {
        let mut n: u128 = 0;
        let mut i: usize = 0;
        assert(self.nodes@.take(0) =~= Seq::empty());
        while i < self.nodes.len()
            invariant
                i <= self.nodes@.len(),
                n == endpoints_in(self.nodes@.take(i as int)),
                n <= i * 0xffff_ffff_ffff_ffff,
            decreases self.nodes@.len() - i,
        {
            proof {
                let next = self.nodes@.take(i + 1);
                assert(next.drop_last() =~= self.nodes@.take(i as int));
                assert(next.last() == self.nodes@[i as int]);
            }
            n = n + self.nodes[i].endpoints.len() as u128;
            i = i + 1;
        }
        assert(self.nodes@.take(i as int) =~= self.nodes@);
        n
    }
}

/// How many endpoints `nodes` list between them.
pub open spec fn endpoints_in(nodes: Seq<BootstrapNode>) -> nat
    decreases nodes.len(),
{
    if nodes.len() == 0 {
        0
    } else {
        endpoints_in(nodes.drop_last()) + nodes.last().endpoints@.len()
    }
}

/// The endpoints of several nodes are those of each, one after another: none is counted
/// twice and none is left out.
pub proof fn law_endpoints_add_up(a: Seq<BootstrapNode>, b: Seq<BootstrapNode>, n: BootstrapNode)
    ensures
        endpoints_in(a + b) == endpoints_in(a) + endpoints_in(b),
        endpoints_in(seq![n]) == n.endpoints@.len(),
        endpoints_in(Seq::empty()) == 0,
    decreases b.len(),
{
    assert(seq![n].drop_last() =~= Seq::empty());
    assert(endpoints_in(seq![n].drop_last()) == 0);
    if b.len() == 0 {
        assert(a + b =~= a);
    } else {
        assert((a + b).drop_last() =~= a + b.drop_last());
        law_endpoints_add_up(a, b.drop_last(), n);
    }
}

} // verus!
