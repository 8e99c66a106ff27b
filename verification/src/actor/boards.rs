//! What a node puts on boards and files from them, how long it looks for one, whom it
//! takes for what, and when a connection counts as unusable.

use vstd::prelude::*;

use crate::actor::{BOARD_PATIENCE_MILLIS, MAX_CONSECUTIVE_STREAM_FAILURES};
use crate::error::Error;
use crate::hash::Digest32;
use crate::table::Table;

verus! {

// ---- publishing --------------------------------------------------------------

/// A record in wire form, by content.
pub open spec fn wires(v: Seq<Vec<u8>>) -> Seq<Seq<u8>> {
    Seq::new(v.len(), |i: int| v[i]@)
}

/// This node's own records of a channel: where it is, and its bundle, with the admission
/// that shows how it became a member.
#[derive(Debug)]
pub struct OwnRecords {
    /// The address record.
    pub address: Vec<u8>,
    /// The bundle record.
    pub bundle: Vec<u8>,
}

/// What goes to an anchor's board.
pub open spec fn for_anchor(
    genesis: Seq<u8>,
    admitted: bool,
    own: Result<OwnRecords, Error>,
    board: Seq<Seq<u8>>,
) -> Seq<Seq<u8>> {
    match own {
        Ok(r) => if admitted {
            seq![genesis, r.address@, r.bundle@] + board
        } else {
            Seq::empty()
        },
        Err(_) => Seq::empty(),
    }
}

/// What is put on an anchor's board, in order: the genesis, this node's address and
/// bundle, then the records of other members that this node's board holds. A node that
/// cannot say how it became a member (`admitted`) puts nothing there, rather than a key
/// without evidence; nor does one whose records cannot be made.
pub fn publish_channel_to_anchor(
    genesis: Vec<u8>,
    admitted: bool,
    own: Result<OwnRecords, Error>,
    board: Vec<Vec<u8>>,
) -> (out: Vec<Vec<u8>>)
    ensures
        wires(out@) == for_anchor(genesis@, admitted, own, wires(board@)),
{
    let mut out: Vec<Vec<u8>> = Vec::new();
    assert(wires(out@) =~= Seq::empty());
    if !admitted {
        return out;
    }
    let ghost before = genesis@;
    match own {
        Ok(r) => {
            let mut board: Vec<Vec<u8>> = board;
            let ghost rest = wires(board@);
            out.push(genesis);
            out.push(r.address);
            out.push(r.bundle);
            let ghost front = out@;
            out.append(&mut board);
            assert(wires(out@) =~= seq![before, r.address@, r.bundle@] + rest);
            out
        },
        Err(_) => out,
    }
}

/// What goes to this node's own board.
pub open spec fn for_own_board(
    genesis: Seq<u8>,
    admitted: bool,
    own: Result<OwnRecords, Error>,
) -> Seq<Seq<u8>> {
    match own {
        Ok(r) => if admitted {
            seq![genesis, r.address@, r.bundle@]
        } else {
            seq![genesis]
        },
        Err(_) => seq![genesis],
    }
}

/// What is put on this node's own board, in order: the genesis in any case, and its
/// address and bundle where it can say how it became a member.
pub fn publish_channel_locally(genesis: Vec<u8>, admitted: bool, own: Result<OwnRecords, Error>) -> (out:
    Vec<Vec<u8>>)
    ensures
        wires(out@) == for_own_board(genesis@, admitted, own),
{
    let ghost before = genesis@;
    let mut out: Vec<Vec<u8>> = Vec::new();
    out.push(genesis);
    if admitted {
        match own {
            Ok(r) => {
                out.push(r.address);
                out.push(r.bundle);
                assert(wires(out@) =~= seq![before, r.address@, r.bundle@]);
                return out;
            },
            Err(_) => {},
        }
    }
    assert(wires(out@) =~= seq![before]);
    out
}

/// A node never publishes its key without the evidence of its admission: without it, its
/// bundle is on no board, unless another member's records hold the same bytes.
pub proof fn law_no_key_without_evidence(
    genesis: Seq<u8>,
    own: Result<OwnRecords, Error>,
    board: Seq<Seq<u8>>,
)
    ensures
        for_anchor(genesis, false, own, board).len() == 0,
        for_own_board(genesis, false, own) == seq![genesis],
{
}

/// What is filed on this node's own board of what a peer's holds: bundles first, because
/// they carry the key that an address record is verified with.
pub fn learned_records(bundles: Vec<Vec<u8>>, members: Vec<Vec<u8>>) -> (out: Vec<Vec<u8>>)
    ensures
        wires(out@) == wires(bundles@) + wires(members@),
{
    let ghost a = wires(bundles@);
    let ghost b = wires(members@);
    let mut out: Vec<Vec<u8>> = bundles;
    let mut members: Vec<Vec<u8>> = members;
    out.append(&mut members);
    assert(wires(out@) =~= a + b);
    out
}

/// Whether the anchors get a mirror: this node's board took any of the records.
pub fn gained(filed: &Vec<bool>) -> (r: bool)
    ensures
        r == filed@.contains(true),
{
    let mut i: usize = 0;
    while i < filed.len()
        invariant
            i <= filed@.len(),
            forall|j: int| 0 <= j < i ==> filed@[j] == false,
        decreases filed@.len() - i,
    {
        if filed[i] {
            assert(filed@[i as int] == true);
            return true;
        }
        i = i + 1;
    }
    false
}

// ---- looking for a board -----------------------------------------------------

/// A search for a board: every route in turn, round after round, until the time is up.
#[derive(Debug, PartialEq, Eq)]
pub struct BoardHunt {
    /// How many routes there are.
    pub routes: usize,
    /// The route that is next.
    pub at: usize,
    /// When to give up, in milliseconds.
    pub deadline: u64,
}

/// What the search does next.
#[derive(Debug, Clone, Copy, PartialEq, Eq, Structural)]
pub enum HuntStep {
    /// It tries the next route.
    Next,
    /// Every route was tried: it pauses, then begins again.
    Pause,
    /// It gives up.
    GiveUp,
}

impl BoardHunt {
    /// What every search keeps.
    pub open spec fn wf(&self) -> bool {
        self.at < self.routes
    }

    /// Begins to look, if there is any route.
    pub fn begin(routes: usize, now: u64) -> (r: Option<BoardHunt>)
        ensures
            match r {
                Some(h) => {
                    &&& h.wf()
                    &&& h.routes == routes
                    &&& h.at == 0
                    &&& h.deadline == (if now + BOARD_PATIENCE_MILLIS > u64::MAX {
                        u64::MAX
                    } else {
                        (now + BOARD_PATIENCE_MILLIS) as u64
                    })
                },
                None => routes == 0,
            },
    {
        if routes == 0 {
            return None;
        }
        let deadline: u64 = if now > u64::MAX - BOARD_PATIENCE_MILLIS {
            u64::MAX
        } else {
            now + BOARD_PATIENCE_MILLIS
        };
        Some(BoardHunt { routes, at: 0, deadline })
    }

    /// A search once the next route did not answer, and what it does then.
    pub open spec fn missed(self, now: u64) -> (BoardHunt, HuntStep) {
        if self.at + 1 < self.routes {
            (BoardHunt { at: (self.at + 1) as usize, ..self }, HuntStep::Next)
        } else {
            (
                BoardHunt { at: 0, ..self },
                if now >= self.deadline {
                    HuntStep::GiveUp
                } else {
                    HuntStep::Pause
                },
            )
        }
    }

    /// A search once the routes did not answer at these times, one after another.
    pub open spec fn missed_all(self, times: Seq<u64>) -> BoardHunt
        decreases times.len(),
    {
        if times.len() == 0 {
            self
        } else {
            self.missed_all(times.drop_last()).missed(times.last()).0
        }
    }

    /// Takes up that the next route did not answer.
    pub fn unanswered(&mut self, now: u64) -> (s: HuntStep)
        requires
            old(self).wf(),
        ensures
            (*final(self), s) == old(self).missed(now),
            final(self).wf(),
            final(self).routes == old(self).routes,
            final(self).deadline == old(self).deadline,
            s == (if old(self).at + 1 < old(self).routes {
                HuntStep::Next
            } else if now >= old(self).deadline {
                HuntStep::GiveUp
            } else {
                HuntStep::Pause
            }),
            final(self).at == (if old(self).at + 1 < old(self).routes {
                (old(self).at + 1) as usize
            } else {
                0
            }),
    {
        let routes: usize = self.routes;
        if self.at < routes - 1 {
            self.at = self.at + 1;
            return HuntStep::Next;
        }
        self.at = 0;
        if now >= self.deadline {
            HuntStep::GiveUp
        } else {
            HuntStep::Pause
        }
    }
}

/// In every round each route is tried once, in its turn, however late it is; only once all
/// of them were tried does the search pause, or give up if its time is up, and then it begins
/// with the first again.
pub proof fn law_every_route_is_tried(h: BoardHunt, times: Seq<u64>, now: u64)
    requires
        h.wf(),
        h.at == 0,
        times.len() < h.routes,
    ensures
        ({
            let here = h.missed_all(times);
            let (next, step) = here.missed(now);
            &&& here.at == times.len()
            &&& here.routes == h.routes && here.deadline == h.deadline
            &&& step == HuntStep::Next <==> times.len() + 1 < h.routes
            &&& times.len() + 1 == h.routes ==> next == h
            &&& step == HuntStep::GiveUp <==> times.len() + 1 == h.routes && now >= h.deadline
            &&& step == HuntStep::Pause <==> times.len() + 1 == h.routes && now < h.deadline
        }),
    decreases times.len(),
{
    if times.len() > 0 {
        law_every_route_is_tried(h, times.drop_last(), times.last());
    }
}

// ---- who is taken for what ---------------------------------------------------

/// Whom a node knows, and how.
#[derive(Debug)]
pub struct PeerPolicy {
    /// The authors of the channels that it holds open or keeps as an anchor.
    pub members: Table<Digest32, ()>,
    /// Its anchors.
    pub anchors: Vec<Digest32>,
    /// The peers that it expects to join.
    pub joiners: Vec<Digest32>,
}

/// Whether a fingerprint is in one of some lists.
pub open spec fn in_some(lists: Seq<Vec<Digest32>>, peer: Digest32) -> bool {
    exists|i: int| 0 <= i < lists.len() && (#[trigger] lists[i])@.contains(peer)
}

/// Whom a node knows: the authors of every channel it holds or keeps, its anchors, and
/// the joiners that it already expected, who are carried over.
pub fn refresh_network_view(
    authors: &Vec<Vec<Digest32>>,
    anchors: Vec<Digest32>,
    joiners: Vec<Digest32>,
) -> (p: PeerPolicy)
    ensures
        p.members.wf(),
        forall|d: Digest32| #[trigger] p.members.has(d@) == in_some(authors@, d),
        p.anchors == anchors,
        p.joiners == joiners,
{
    let mut members: Table<Digest32, ()> = Table::new();
    let mut i: usize = 0;
    while i < authors.len()
        invariant
            i <= authors@.len(),
            members.wf(),
            forall|d: Digest32| #[trigger]
                members.has(d@) == in_some(authors@.take(i as int), d),
        decreases authors@.len() - i,
    {
        let ghost before = authors@.take(i as int);
        let ghost list = authors@[i as int]@;
        let mut j: usize = 0;
        while j < authors[i].len()
            invariant
                i < authors@.len(),
                j <= list.len(),
                list == authors@[i as int]@,
                members.wf(),
                forall|d: Digest32| #[trigger]
                    members.has(d@) == (in_some(before, d) || list.take(j as int).contains(d)),
            decreases list.len() - j,
        {
            let d: Digest32 = authors[i][j];
            let ghost known = members;
            members.insert(d, ());
            proof {
                let more = list.take(j + 1);
                assert(more =~= list.take(j as int).push(d));
                assert forall|x: Digest32| #[trigger]
                    members.has(x@) == (in_some(before, x) || more.contains(x)) by {
                    if more.contains(x) {
                        let k = more.index_of(x);
                        if k < j {
                            assert(list.take(j as int)[k] == x);
                        }
                    }
                    if list.take(j as int).contains(x) {
                        let k = list.take(j as int).index_of(x);
                        assert(more[k] == x);
                    }
                    assert(more[j as int] == d);
                    if x@ == d@ {
                        crate::hash::lemma_digest_ext(x, d);
                    }
                    assert(known.has(x@) == (in_some(before, x) || list.take(j as int).contains(
                        x,
                    )));
                }
            }
            j = j + 1;
        }
        proof {
            assert(list.take(j as int) =~= list);
            let after = authors@.take(i + 1);
            assert forall|d: Digest32| #[trigger] members.has(d@) == in_some(after, d) by {
                if in_some(before, d) {
                    let k = choose|k: int| 0 <= k < before.len() && (#[trigger] before[k])@.contains(
                        d,
                    );
                    assert(after[k]@.contains(d));
                }
                if list.contains(d) {
                    assert(after[i as int]@.contains(d));
                }
                if in_some(after, d) {
                    let k = choose|k: int| 0 <= k < after.len() && (#[trigger] after[k])@.contains(d);
                    if k < i {
                        assert(before[k]@.contains(d));
                    }
                }
            }
        }
        i = i + 1;
    }
    assert(authors@.take(i as int) =~= authors@);
    PeerPolicy { members, anchors, joiners }
}

// ---- streams and paths -------------------------------------------------------

/// What became of accepting a stream.
#[derive(Debug, Clone, Copy, PartialEq, Eq, Structural)]
pub enum Accepting {
    /// A stream was served or handed on.
    Served,
    /// It failed, and the connection is still there.
    Failed,
    /// It failed because the connection is gone.
    Closed,
}

/// How many failures in a row there are now, or `None` where the connection is done with:
/// it is gone, or it failed [`MAX_CONSECUTIVE_STREAM_FAILURES`] times without a stream in
/// between. One bad stream does not stop the others.
pub fn after_stream(failures: u32, became: Accepting) -> (r: Option<u32>)
    requires
        failures < MAX_CONSECUTIVE_STREAM_FAILURES,
    ensures
        r == (match became {
            Accepting::Served => Some(0u32),
            Accepting::Failed => if failures + 1 < MAX_CONSECUTIVE_STREAM_FAILURES {
                Some((failures + 1) as u32)
            } else {
                None
            },
            Accepting::Closed => None,
        }),
{
    match became {
        Accepting::Served => Some(0),
        Accepting::Failed => if failures + 1 < MAX_CONSECUTIVE_STREAM_FAILURES {
            Some(failures + 1)
        } else {
            None
        },
        Accepting::Closed => None,
    }
}

/// The peers that are reached through a relay, in fingerprint order.
pub fn path_view(peers: &Vec<(Digest32, bool)>) -> (t: Table<Digest32, bool>)
    ensures
        t.wf(),
        forall|d: Digest32| #[trigger]
            t.has(d@) == peers@.contains((d, true)),
{
    let mut t: Table<Digest32, bool> = Table::new();
    let mut i: usize = 0;
    while i < peers.len()
        invariant
            i <= peers@.len(),
            t.wf(),
            forall|d: Digest32| #[trigger]
                t.has(d@) == peers@.take(i as int).contains((d, true)),
        decreases peers@.len() - i,
    {
        let ghost before = peers@.take(i as int);
        let ghost known = t;
        let (d, relayed) = peers[i];
        if relayed {
            t.insert(d, true);
        }
        proof {
            let after = peers@.take(i + 1);
            assert(after =~= before.push((d, relayed)));
            assert forall|x: Digest32| #[trigger] t.has(x@) == after.contains((x, true)) by {
                assert(known.has(x@) == before.contains((x, true)));
                if after.contains((x, true)) {
                    let k = after.index_of((x, true));
                    if k < i {
                        assert(before[k] == (x, true));
                    }
                }
                if before.contains((x, true)) {
                    let k = before.index_of((x, true));
                    assert(after[k] == (x, true));
                }
                assert(after[i as int] == (d, relayed));
                if x@ == d@ {
                    crate::hash::lemma_digest_ext(x, d);
                }
            }
        }
        i = i + 1;
    }
    assert(peers@.take(i as int) =~= peers@);
    t
}

} // verus!
