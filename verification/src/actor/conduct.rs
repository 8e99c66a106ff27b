//! What holds of the node's conduct towards others: what a client is told of an error, what
//! is done about a control frame, what is put on whose board, and who is admitted from one.

use vstd::prelude::*;

use crate::actor::admission::{self, BoardRecord, Sweep};
use crate::actor::boards::{self, OwnRecords};
use crate::actor::course;
use crate::actor::node::{self, Effect, NodeCore, PairSlot, PortMapping};
use crate::actor::peers::{self, ControlStep, KeyRelease, PairwiseFrame, ReleaseStage};
use crate::actor::rooms;
use crate::actor::ticks;
use crate::actor::view::{self, OpenRoom};
use crate::actor::work;
use crate::actor;
use crate::api::{ChannelDetail, Fault, NodeEvent, Outcome};
use crate::channel::state::{Admission, ChannelState};
use crate::error::Error;
use crate::hash::Digest32;
use crate::table::Key;

verus! {

// ---- what a client is told ---------------------------------------------------

/// A client is told of a wrong passphrase, an input too long, a bad link, an unreachable
/// peer, a refusal or a failed store exactly where it was one.
pub proof fn law_client_is_told_what_it_was(e: Error)
    ensures
        actor::fault_for(e) == Fault::WrongPassphrase <==> e is AtRestUnlockFailed,
        actor::fault_for(e) == Fault::TooLong <==> e is SizeLimitExceeded,
        actor::fault_for(e) == Fault::BadLink <==> e is MalformedLink || e is MalformedAnchorLine,
        actor::fault_for(e) == Fault::Unreachable <==> e is Unreachable,
        actor::fault_for(e) == Fault::Refused <==> e is JoinRefused || e is RendezvousRejected || e
            is MalformedJoin,
        actor::fault_for(e) == Fault::Storage <==> e is Storage || e is Path,
        e is AtRestLocked ==> actor::fault_for(e) == Fault::Locked,
{
}

/// A client is told that there is no identity, that there is one already, that it is locked
/// or that a channel is unknown exactly where the profile said so.
pub proof fn law_client_is_told_of_the_profile(what: &'static str)
    ensures
        actor::fault_for(Error::Profile("no identity in this profile")) == Fault::NoIdentity,
        actor::fault_for(Error::Profile("identity already exists in this profile"))
            == Fault::IdentityExists,
        actor::fault_for(Error::Profile("locked")) == Fault::Locked,
        actor::fault_for(Error::Profile("no such channel in this profile"))
            == Fault::UnknownChannel,
        actor::fault_for(Error::Profile(what)) == Fault::NoIdentity ==> what@
            == "no identity in this profile"@,
        actor::fault_for(Error::Profile(what)) == Fault::IdentityExists ==> what@
            == "identity already exists in this profile"@,
        actor::fault_for(Error::Profile(what)) == Fault::Locked ==> what@ == "locked"@,
        actor::fault_for(Error::Profile(what)) == Fault::UnknownChannel ==> what@
            == "no such channel in this profile"@,
        actor::fault_for(Error::MalformedGovernance("no consent to revoke"))
            == Fault::NotConsented,
        actor::fault_for(
            Error::MalformedGovernance("an identity cannot revoke its own consent"),
        ) == Fault::NotConsented,
{
    reveal_strlit("no identity in this profile");
    reveal_strlit("identity already exists in this profile");
    reveal_strlit("locked");
    reveal_strlit("no such channel in this profile");
    assert("no identity in this profile"@.len() == 27);
    assert("identity already exists in this profile"@.len() == 39);
    assert("locked"@.len() == 6);
    assert("no such channel in this profile"@.len() == 31);
}

// ---- control frames ----------------------------------------------------------

/// Each control frame is taken up for the channel that it names, with what it carries; a
/// first message exactly if no session was accepted before, and the end of the stream never.
pub proof fn law_control_frame_is_taken_up(
    channel_id: Digest32,
    carried: Vec<u8>,
    accepted: bool,
    frame: Option<PairwiseFrame>,
)
    ensures
        peers::control_step(
            Some(PairwiseFrame::Hello { channel_id, initial: carried }),
            accepted,
        ) == (ControlStep::Accept { channel_id, initial: carried }) <==> !accepted,
        peers::control_step(Some(PairwiseFrame::Open { channel_id, sealed: carried }), accepted)
            == (ControlStep::Turn { channel_id, sealed: carried }),
        peers::control_step(Some(PairwiseFrame::Skdm { channel_id, sealed: carried }), accepted)
            == (ControlStep::TakeKey { channel_id, sealed: carried }),
        peers::control_step(frame, accepted) is Stop <==> frame is None || (frame->Some_0 is Hello
            && accepted),
{
}

// ---- boards ------------------------------------------------------------------

/// A node that cannot say how it became a member puts nothing on an anchor's board and the
/// bare genesis on its own; one that can puts on an anchor's what it puts on its own, and
/// all that its board holds of others behind it.
pub proof fn law_boards_agree(
    genesis: Seq<u8>,
    admitted: bool,
    own: Result<OwnRecords, Error>,
    board: Seq<Seq<u8>>,
)
    ensures
        boards::for_own_board(genesis, admitted, own).len() > 0,
        boards::for_own_board(genesis, admitted, own)[0] == genesis,
        admitted && own is Ok ==> boards::for_anchor(genesis, admitted, own, board)
            == boards::for_own_board(genesis, admitted, own) + board,
        !admitted || own is Err ==> {
            &&& boards::for_anchor(genesis, admitted, own, board).len() == 0
            &&& boards::for_own_board(genesis, admitted, own).len() == 1
        },
{
}

// ---- admission from a board --------------------------------------------------

/// A record proves its key exactly if the key decodes and the record verifies under it.
pub proof fn law_record_proves_its_key(r: BoardRecord)
    ensures
        !r.verified ==> !admission::usable(r),
        r.key is Err ==> !admission::usable(r),
        r.verified && r.key is Ok ==> admission::usable(r),
{
}

/// A usable record of somebody new is admitted exactly if it is the creator's, or an author
/// who is known signed its witness and that verifies, and there is a place left; a record
/// that is not usable is dropped, and one whose evidence may come later is kept.
pub proof fn law_evidence_admits(s: Sweep, creator: Digest32, r: BoardRecord)
    ensures
        !admission::usable(r) ==> admission::verdict(s, creator, r) is Drop,
        admission::usable(r) && !s.known.contains_key(r.key->Ok_0.fingerprint@) && s.count < 1024
            ==> {
            &&& r.admission is Creator ==> (admission::verdict(s, creator, r) is Admit
                <==> r.key->Ok_0.fingerprint == creator)
            &&& r.admission matches Admission::Witnessed(w) ==> (admission::verdict(s, creator, r)
                is Admit <==> s.known.contains_key(w.witness_id@) && r.witness is Ok)
            &&& !(admission::verdict(s, creator, r) is Drop)
        },
        s.known.contains_key(r.key->Ok_0.fingerprint@) ==> !(admission::verdict(s, creator, r)
            is Admit),
        s.count >= 1024 ==> !(admission::verdict(s, creator, r) is Admit),
{
}

/// Looking at a record loses nobody who is known, admits at most the record's own author,
/// counts that, and writes one page for it; a record is kept exactly if it may still be
/// admitted later.
pub proof fn law_look_admits_one(
    s: Sweep,
    creator: Digest32,
    records: Seq<BoardRecord>,
    quota: int,
    at: int,
    k: Seq<u8>,
)
    ensures
        ({
            let t = admission::looked(s, creator, records, quota, at);
            let v = admission::verdict(s, creator, records[at]);
            &&& s.known.contains_key(k) && k != records[at].key->Ok_0.fingerprint@
                ==> t.known.contains_key(k) && t.known[k] == s.known[k]
            &&& t.known.contains_key(k) && !s.known.contains_key(k) ==> k
                == records[at].key->Ok_0.fingerprint@ && v is Admit
            &&& s.admitted < quota && v is Admit ==> t.known.contains_key(
                records[at].key->Ok_0.fingerprint@,
            ) && t.admitted == s.admitted + 1 && t.pages.len() == s.pages.len() + 1 && t.count
                == s.count + 1
            &&& !(s.admitted < quota && v is Admit) ==> t.known == s.known && t.admitted
                == s.admitted && t.pages == s.pages && t.count == s.count
            &&& s.admitted >= quota || v is Keep ==> t.kept == s.kept.push(at)
            &&& s.admitted < quota && !(v is Keep) ==> t.kept == s.kept
        }),
{
}

// ---- what is shown -----------------------------------------------------------

/// The number that a digit stands for.
pub open spec fn digit(c: char) -> int {
    c as int - '0' as int
}

/// The number that a text of digits stands for.
pub open spec fn read(s: Seq<char>) -> int
    decreases s.len(),
{
    if s.len() == 0 {
        0
    } else {
        read(s.drop_last()) * 10 + digit(s.last())
    }
}

/// A number in decimal notation is digits throughout, reads as the number, and has no zero
/// in front unless it is zero.
pub proof fn law_number_reads_back(n: nat)
    ensures
        read(rooms::decimal(n)) == n,
        rooms::decimal(n).len() > 0,
        forall|i: int|
            0 <= i < rooms::decimal(n).len() ==> '0' <= #[trigger] rooms::decimal(n)[i] <= '9',
        n > 0 ==> rooms::decimal(n)[0] != '0',
    decreases n,
{
    reveal_strlit("0123456789");
    let s = rooms::decimal(n);
    let d = (n % 10) as int;
    assert(digit(rooms::DIGITS@[d]) == d);
    if n < 10 {
        assert(s.drop_last() =~= Seq::empty());
        assert(read(s.drop_last()) == 0);
        assert(s.last() == rooms::DIGITS@[d]);
    } else {
        law_number_reads_back(n / 10);
        let front = rooms::decimal(n / 10);
        assert(s.drop_last() =~= front);
        assert(s[0] == front[0]);
        assert forall|i: int| 0 <= i < s.len() implies '0' <= #[trigger] s[i] <= '9' by {
            if i < front.len() {
                assert(s[i] == front[i]);
            }
        }
    }
}

/// What is shown of an open room is the room: its members, and each message with who wrote
/// it, when, what it says and its place.
pub proof fn law_room_is_shown_as_it_is(d: ChannelDetail, room: OpenRoom, i: int)
    requires
        view::details(d, room),
        0 <= i < room.channel.timeline@.len(),
    ensures
        d.channel_id == room.channel.channel_id,
        d.local_name@ == room.channel.local_name@,
        d.members@.len() == room.channel.authors.rows().len(),
        forall|k: int|
            0 <= k < d.members@.len() ==> #[trigger] d.members@[k]
                == room.channel.authors.rows()[k].0,
        d.timeline@.len() == room.channel.timeline@.len(),
        d.timeline@[i].entry_hash == room.channel.timeline@[i].entry_hash,
        d.timeline@[i].author == room.channel.timeline@[i].author,
        d.timeline@[i].created_millis == room.channel.timeline@[i].created_millis,
        d.timeline@[i].text@ == room.channel.timeline@[i].text@,
        d.timeline@[i].arrival == i,
{
    assert(view::shows_row(d.timeline@[i], room.channel.timeline@[i], i));
}

/// The room's keys are locked in memory exactly if each of them is, however many there are.
pub proof fn law_all_rooms_are_mlocked(a: Seq<OpenRoom>, b: Seq<OpenRoom>, r: OpenRoom)
    ensures
        view::all_mlocked(Seq::empty()),
        view::all_mlocked(a + b) <==> view::all_mlocked(a) && view::all_mlocked(b),
        view::all_mlocked(seq![r]) <==> r.mlocked,
{
    if view::all_mlocked(a + b) {
        assert forall|i: int| 0 <= i < a.len() implies (#[trigger] a[i]).mlocked by {
            assert((a + b)[i].mlocked);
        }
        assert forall|i: int| 0 <= i < b.len() implies (#[trigger] b[i]).mlocked by {
            assert((a + b)[a.len() + i].mlocked);
        }
    }
    if view::all_mlocked(a) && view::all_mlocked(b) {
        assert forall|i: int| 0 <= i < (a + b).len() implies (#[trigger] (a + b)[i]).mlocked by {
            if i < a.len() {
                assert(a[i].mlocked);
            } else {
                assert(b[i - a.len()].mlocked);
            }
        }
    }
    if view::all_mlocked(seq![r]) {
        assert(seq![r][0].mlocked);
    }
}

/// A peer is a member exactly if it is an author of one of the channels, whichever.
pub proof fn law_member_of_any_channel(
    a: Seq<Vec<Digest32>>,
    b: Seq<Vec<Digest32>>,
    list: Vec<Digest32>,
    peer: Digest32,
)
    ensures
        !boards::in_some(Seq::empty(), peer),
        boards::in_some(a + b, peer) <==> boards::in_some(a, peer) || boards::in_some(b, peer),
        boards::in_some(seq![list], peer) <==> list@.contains(peer),
{
    if boards::in_some(a, peer) {
        let i = choose|i: int| 0 <= i < a.len() && (#[trigger] a[i])@.contains(peer);
        assert((a + b)[i]@.contains(peer));
    }
    if boards::in_some(b, peer) {
        let i = choose|i: int| 0 <= i < b.len() && (#[trigger] b[i])@.contains(peer);
        assert((a + b)[a.len() + i]@.contains(peer));
    }
    if boards::in_some(a + b, peer) {
        let i = choose|i: int| 0 <= i < (a + b).len() && (#[trigger] (a + b)[i])@.contains(peer);
        if i < a.len() {
            assert(a[i]@.contains(peer));
        } else {
            assert(b[i - a.len()]@.contains(peer));
        }
    }
    if list@.contains(peer) {
        assert(seq![list][0]@.contains(peer));
    }
}

// ---- going down --------------------------------------------------------------

/// With the network down nothing is served, mapped or pushed, and what the node holds is
/// what it held: the identity stays unlocked and its rooms stay open.
pub proof fn law_network_goes_down_alone(n: NodeCore, before: NodeCore)
    requires
        n.network_down(before),
    ensures
        !n.networked,
        n.stream_loops@.len() == 0,
        n.port_mappings@.len() == 0,
        n.unlocked == before.unlocked,
        n.identity == before.identity,
        n.channels == before.channels,
        n.trusted == before.trusted,
        n.sessions == before.sessions,
        n.anchored == before.anchored,
        forall|id: Digest32| !(#[trigger] n.pending_push.map().contains_key(id@)),
{
}

/// A locked node has no open room, no session, no trusted peer in memory, no prekey and no
/// network, whatever it had before; that it has an identity stays.
pub proof fn law_locked_node_holds_nothing(n: NodeCore, before: NodeCore)
    requires
        n.locked_down(before),
    ensures
        !n.unlocked,
        !n.networked,
        !n.prekeys,
        n.identity == before.identity,
        n.holds_nothing(),
        n.stream_loops@.len() == 0,
        n.port_mappings@.len() == 0,
        n.anchored == before.anchored,
{
}

/// A room that was opened is open, with its epoch, and no other room, and nothing else, is
/// any different.
pub proof fn law_opened_room_is_held(
    n: NodeCore,
    before: NodeCore,
    id: Digest32,
    epoch: u64,
    other: Digest32,
)
    requires
        n.holding(before, id, epoch),
    ensures
        n.channels.map().contains_key(id@) && n.channels.map()[id@] == epoch,
        other@ != id@ ==> n.channels.map().contains_key(other@)
            == before.channels.map().contains_key(other@),
        n.trusted == before.trusted,
        n.sessions == before.sessions,
        n.networked == before.networked,
        n.unlocked == before.unlocked,
        n.anchored == before.anchored,
{
}

/// Some identities name one exactly if it is one of them.
pub proof fn law_named_exactly(ids: Seq<Digest32>, d: Digest32)
    ensures
        ticks::names(ids, d@) <==> ids.contains(d),
{
    if ticks::names(ids, d@) {
        let i = choose|i: int| 0 <= i < ids.len() && (#[trigger] ids[i])@ == d@;
        crate::hash::lemma_digest_ext(ids[i], d);
        assert(ids[i] == d);
    }
    if ids.contains(d) {
        let i = ids.index_of(d);
        assert(ids[i]@ == d@);
    }
}

/// A failed command is answered with what its error comes to, and no success is.
pub proof fn law_failure_is_answered(e: Error)
    ensures
        work::failed(e) != Outcome::Done,
        work::failed(e) == Outcome::Failed(Fault::Refused) <==> e is JoinRefused || e
            is RendezvousRejected || e is MalformedJoin,
        work::failed(e) == Outcome::Failed(Fault::WrongPassphrase) <==> e is AtRestUnlockFailed,
        e is Unreachable ==> work::failed(e) == Outcome::Failed(Fault::Unreachable),
{
}

/// The lifetimes that are looked at are those of all mappings, each and in order.
pub proof fn law_every_mapping_is_looked_at(mappings: Seq<PortMapping>, i: int)
    requires
        0 <= i < mappings.len(),
    ensures
        ticks::lifetimes_of(mappings).len() == mappings.len(),
        ticks::lifetimes_of(mappings)[i] == mappings[i].lifetime_secs,
{
}

/// Taking the network down closes it exactly if it was up, and takes back each mapping that
/// was granted for ever, whether or not it was up; and does nothing else.
pub proof fn law_closing_takes_mappings_back(n: NodeCore, port: u16)
    ensures
        node::closing(n).contains(Effect::CloseNetwork) <==> n.networked,
        node::closing(n).contains(Effect::Unmap(port)) <==> exists|i: int|
            0 <= i < n.port_mappings@.len() && (#[trigger] n.port_mappings@[i]).upnp
                && n.port_mappings@[i].lifetime_secs == 0 && n.port_mappings@[i].internal_port
                == port,
        node::closing(n).len() == node::unmaps(n.port_mappings@).len() + (if n.networked {
            1int
        } else {
            0
        }),
{
    let un = node::unmaps(n.port_mappings@);
    let all = node::closing(n);
    course::law_permanent_mappings_are_taken_back(n.port_mappings@, port);
    lemma_only_unmaps(n.port_mappings@);
    let d = all.len() - un.len();
    if un.contains(Effect::Unmap(port)) {
        let k = un.index_of(Effect::Unmap(port));
        assert(all[d + k] == Effect::Unmap(port));
    }
    if all.contains(Effect::Unmap(port)) {
        let k = all.index_of(Effect::Unmap(port));
        assert(k >= d);
        assert(un[k - d] == Effect::Unmap(port));
    }
    if n.networked {
        assert(all[0] == Effect::CloseNetwork);
    } else if all.contains(Effect::CloseNetwork) {
        let k = all.index_of(Effect::CloseNetwork);
        assert(un[k] == Effect::CloseNetwork);
    }
}

proof fn lemma_only_unmaps(mappings: Seq<PortMapping>)
    ensures
        forall|i: int|
            0 <= i < node::unmaps(mappings).len() ==> #[trigger] node::unmaps(mappings)[i] is Unmap,
    decreases mappings.len(),
{
    if mappings.len() > 0 {
        lemma_only_unmaps(mappings.drop_last());
    }
}

/// A session with a peer in a room is there exactly if one is held for that pair, and a room
/// is open exactly if it is held.
pub proof fn law_session_is_of_the_pair(n: NodeCore, id: Digest32, peer: Digest32)
    ensures
        n.has_session(id, peer) <==> n.sessions.map().contains_key(id@ + peer@),
        n.has_open(id) <==> n.channels.map().contains_key(id@),
{
    assert((PairSlot { channel_id: id, peer }).key_bytes() =~= id@ + peer@);
}

/// Whoever was gained from a board has a record there that proves the key under which they
/// are an author, and is the creator or has the witness of an author; nobody was lost, and
/// nothing but the authors changed.
pub proof fn law_gained_author_has_a_record(
    ch: ChannelState,
    before: ChannelState,
    records: Seq<BoardRecord>,
    k: Seq<u8>,
)
    requires
        admission::only_gained_authors(ch, before),
        admission::all_vouched(ch, before, records),
    ensures
        before.authors.map().contains_key(k) ==> ch.authors.map().contains_key(k)
            && ch.authors.map()[k] == before.authors.map()[k],
        ch.log == before.log && ch.timeline == before.timeline && ch.receivers == before.receivers
            && ch.sender == before.sender && ch.genesis == before.genesis,
        ch.authors.map().contains_key(k) && !before.authors.map().contains_key(k) ==> exists|i: int|
            {
                &&& 0 <= i < records.len()
                &&& (#[trigger] records[i]).verified && records[i].key is Ok
                &&& records[i].key->Ok_0.fingerprint@ == k
                &&& match records[i].admission {
                    Admission::Creator => ch.genesis.creator.fingerprint@ == k,
                    Admission::Witnessed(w) => ch.authors.map().contains_key(w.witness_id@)
                        && records[i].witness is Ok,
                }
            },
{
    if ch.authors.map().contains_key(k) && !before.authors.map().contains_key(k) {
        let i = choose|i: int|
            0 <= i < records.len() && admission::vouches(ch, #[trigger] records[i], k);
        assert(admission::vouches(ch, records[i], k));
        assert(records[i].verified);
    }
}

/// A consent is news exactly if the key was minted, its target reached in a session, the key
/// delivered and the delivery recorded; and it is news of the room and the member that it
/// was asked for. Whatever failed first ends the release.
pub proof fn law_consent_is_news_once_recorded(
    k: Seq<KeyRelease>,
    minted: Result<(), Error>,
    reached: bool,
    session: bool,
    delivered: Result<(), Error>,
    recorded: Result<(), Error>,
    first: Result<(), Fault>,
    second: Result<(), Fault>,
    last: (Outcome, Option<NodeEvent>),
)
    requires
        k.len() == 4,
        KeyRelease::minting(k[0], k[1], minted, reached, session, first),
        KeyRelease::delivering(k[1], k[2], delivered, second),
        KeyRelease::recording(k[2], k[3], recorded, last),
    ensures
        first is Ok <==> minted is Ok && reached && session,
        first is Err <==> k[1].stage == ReleaseStage::Over,
        minted is Ok && !(reached && session) ==> first == Err::<(), Fault>(Fault::Unreachable),
        second is Ok <==> delivered is Ok,
        second is Err <==> k[2].stage == ReleaseStage::Over,
        last.1 is Some <==> recorded is Ok,
        last.0 == Outcome::Done <==> recorded is Ok,
        last.1 matches Some(e) ==> e == (NodeEvent::Consented {
            channel_id: k[0].channel_id,
            target: k[0].target,
        }),
        k[3].stage == ReleaseStage::Over,
{
}

} // verus!
