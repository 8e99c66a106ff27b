//! The invite link: rendering and parsing.

use vstd::prelude::*;
use vstd::string::*;

use crate::bootstrap::{self, BootstrapNode, MAX_ENDPOINTS};
use crate::error::Error;
use crate::hash::{same_digest, Digest32};
use crate::link::b32::{self, b32_decode, b32_encode};
use crate::link::scan::{self, split_once, split_text};
use crate::link::{self, LINK_SCHEME, MAX_LINK_ANCHORS};
use crate::text::same_text;

verus! {

/// A parsed invite link.
#[derive(Debug, PartialEq, Eq)]
pub struct InviteLink {
    /// The channel, which the joiner checks the fetched genesis against.
    pub channel_id: Digest32,
    /// The anchors to bootstrap from, in preference order, each with the identity the
    /// joiner pins when it dials.
    pub anchors: Vec<BootstrapNode>,
    /// A pin of the member to join through.
    pub responder: Option<Digest32>,
}

/// Whether no two nodes have one identity.
pub open spec fn distinct(nodes: Seq<(Seq<u8>, Seq<Seq<char>>)>) -> bool {
    forall|i: int, j: int|
        0 <= i < j < nodes.len() ==> (#[trigger] nodes[i]).0 != (#[trigger] nodes[j]).0
}

// ---- fields --------------------------------------------------------------------

/// The fields for a node's addresses.
pub open spec fn address_fields(addrs: Seq<Seq<char>>) -> Seq<Seq<char>> {
    Seq::new(addrs.len(), |i: int| seq!['b', '='] + addrs[i])
}

/// The fields for some anchors: each one's identity, and its addresses behind it.
pub open spec fn anchor_fields(nodes: Seq<(Seq<u8>, Seq<Seq<char>>)>) -> Seq<Seq<char>>
    decreases nodes.len(),
{
    if nodes.len() == 0 {
        Seq::empty()
    } else {
        anchor_fields(nodes.drop_last()).push(seq!['a', '='] + b32::b32_of(nodes.last().0))
            + address_fields(nodes.last().1)
    }
}

/// The field for a responder, if any.
pub open spec fn responder_fields(responder: Option<Digest32>) -> Seq<Seq<char>> {
    match responder {
        Some(r) => seq![seq!['r', '='] + b32::b32_of(r@)],
        None => Seq::empty(),
    }
}

/// Fields as a query spells them: each behind its separator.
pub open spec fn query_of(fields: Seq<Seq<char>>) -> Seq<char>
    decreases fields.len(),
{
    if fields.len() == 0 {
        Seq::empty()
    } else {
        query_of(fields.drop_last()).push(
            if fields.len() == 1 {
                '?'
            } else {
                '&'
            },
        ) + fields.last()
    }
}

impl InviteLink {
    /// The fields of the link.
    pub open spec fn fields(&self) -> Seq<Seq<char>> {
        anchor_fields(bootstrap::nodes_view(self.anchors@)) + responder_fields(self.responder)
    }

    /// The link as text.
    pub open spec fn url(&self) -> Seq<char> {
        LINK_SCHEME@ + b32::b32_of(self.channel_id@) + query_of(self.fields())
    }

    /// What every link keeps: it names between one and [`MAX_LINK_ANCHORS`] anchors, no
    /// two with one identity.
    pub open spec fn wf(&self) -> bool {
        &&& 1 <= self.anchors@.len() <= MAX_LINK_ANCHORS
        &&& distinct(bootstrap::nodes_view(self.anchors@))
    }

    /// Makes a link. One with no anchor names no way to reach the swarm.
    pub fn new(channel_id: Digest32, anchors: Vec<BootstrapNode>, responder: Option<Digest32>) -> (r: Result<
        InviteLink,
        Error,
    >)
        ensures
            match r {
                Ok(l) => {
                    &&& l.wf()
                    &&& l.channel_id == channel_id
                    &&& l.anchors == anchors
                    &&& l.responder == responder
                },
                Err(e) => if anchors@.len() == 0 {
                    e == Error::MalformedLink("invite link has no anchors")
                } else if anchors@.len() > MAX_LINK_ANCHORS {
                    e == Error::MalformedLink("invite link anchor count")
                } else {
                    !distinct(bootstrap::nodes_view(anchors@)) && e == Error::MalformedLink(
                        "invite link duplicate anchor",
                    )
                },
            },
    {
        if anchors.len() == 0 {
            return Err(Error::MalformedLink("invite link has no anchors"));
        }
        if anchors.len() > MAX_LINK_ANCHORS {
            return Err(Error::MalformedLink("invite link anchor count"));
        }
        let ghost vs = bootstrap::nodes_view(anchors@);
        let mut i: usize = 0;
        while i < anchors.len()
            invariant
                i <= anchors@.len(),
                vs == bootstrap::nodes_view(anchors@),
                1 <= anchors@.len() <= MAX_LINK_ANCHORS,
                forall|p: int, q: int|
                    0 <= p < q < i ==> (#[trigger] vs[p]).0 != (#[trigger] vs[q]).0,
            decreases anchors@.len() - i,
        {
            let mut j: usize = 0;
            while j < i
                invariant
                    j <= i < anchors@.len(),
                    vs == bootstrap::nodes_view(anchors@),
                    1 <= anchors@.len() <= MAX_LINK_ANCHORS,
                    forall|p: int| 0 <= p < j ==> (#[trigger] vs[p]).0 != vs[i as int].0,
                decreases i - j,
            {
                if same_digest(&anchors[j].id, &anchors[i].id) {
                    assert(vs[j as int].0 == vs[i as int].0);
                    return Err(Error::MalformedLink("invite link duplicate anchor"));
                }
                j = j + 1;
            }
            i = i + 1;
        }
        Ok(InviteLink { channel_id, anchors, responder })
    }

    /// The link as text.
    #[must_use]
    pub fn to_url(&self) -> (out: String)
        ensures
            out@ == self.url(),
    {
        let mut out: String = LINK_SCHEME.to_owned();
        out.append(b32_encode(&self.channel_id).as_str());
        let ghost front = out@;
        let ghost ns = bootstrap::nodes_view(self.anchors@);
        let ghost mut fs = Seq::<Seq<char>>::empty();
        let mut i: usize = 0;
        assert(ns.take(0) =~= Seq::empty());
        assert(out@ =~= front + query_of(fs));
        while i < self.anchors.len()
            invariant
                i <= self.anchors@.len(),
                ns == bootstrap::nodes_view(self.anchors@),
                fs == anchor_fields(ns.take(i as int)),
                (fs.len() == 0) == (i == 0),
                out@ == front + query_of(fs),
            decreases self.anchors@.len() - i,
        {
            let anchor: &BootstrapNode = &self.anchors[i];
            let ghost addrs = scan::texts(anchor.endpoints@);
            let ghost start = fs.push(seq!['a', '='] + b32::b32_of(anchor.id@));
            proof {
                assert(ns.take(i + 1).drop_last() =~= ns.take(i as int));
                assert(ns.take(i + 1).last() == anchor@);
            }
            put_field(&mut out, i == 0, "a=", b32_encode(&anchor.id).as_str(), Ghost(front), Ghost(fs));
            proof {
                reveal_strlit("a=");
                assert("a="@ =~= seq!['a', '=']);
                fs = start;
            }
            let mut j: usize = 0;
            assert(start =~= start + address_fields(addrs).take(0));
            while j < anchor.endpoints.len()
                invariant
                    j <= anchor.endpoints@.len(),
                    addrs == scan::texts(anchor.endpoints@),
                    start.len() > 0,
                    fs == start + address_fields(addrs).take(j as int),
                    out@ == front + query_of(fs),
                decreases anchor.endpoints@.len() - j,
            {
                put_field(&mut out, false, "b=", anchor.endpoints[j].as_str(), Ghost(front), Ghost(fs));
                proof {
                    reveal_strlit("b=");
                    assert("b="@ =~= seq!['b', '=']);
                    let f = seq!['b', '='] + anchor.endpoints@[j as int]@;
                    assert(address_fields(addrs)[j as int] == f);
                    assert(address_fields(addrs).take(j + 1) =~= address_fields(addrs).take(
                        j as int,
                    ).push(f));
                    assert(fs.push(f) =~= start + address_fields(addrs).take(j + 1));
                    fs = fs.push(f);
                }
                j = j + 1;
            }
            assert(address_fields(addrs).take(j as int) =~= address_fields(addrs));
            i = i + 1;
        }
        assert(ns.take(i as int) =~= ns);
        match &self.responder {
            Some(r) => {
                let first: bool = self.anchors.len() == 0;
                put_field(&mut out, first, "r=", b32_encode(r).as_str(), Ghost(front), Ghost(fs));
                proof {
                    reveal_strlit("r=");
                    assert("r="@ =~= seq!['r', '=']);
                    let f = seq!['r', '='] + b32::b32_of(r@);
                    assert(fs.push(f) =~= fs + responder_fields(self.responder));
                }
            },
            None => {
                assert(fs =~= fs + responder_fields(self.responder));
            },
        }
        out
    }
}

fn put_field(
    out: &mut String,
    first: bool,
    key: &'static str,
    value: &str,
    Ghost(front): Ghost<Seq<char>>,
    Ghost(fields): Ghost<Seq<Seq<char>>>,
)
    requires
        old(out)@ == front + query_of(fields),
        first == (fields.len() == 0),
    ensures
        final(out)@ == front + query_of(fields.push(key@ + value@)),
{
    proof {
        reveal_strlit("?");
        reveal_strlit("&");
        assert(fields.push(key@ + value@).drop_last() =~= fields);
    }
    if first {
        out.append("?");
    } else {
        out.append("&");
    }
    out.append(key);
    out.append(value);
    assert(out@ =~= front + query_of(fields.push(key@ + value@)));
}

// ---- parsing -------------------------------------------------------------------

/// Where the parsing of a query stands.
#[verifier::ext_equal]
pub struct LinkRead {
    /// The anchors read so far.
    pub anchors: Seq<(Seq<u8>, Seq<Seq<char>>)>,
    /// The anchor whose addresses are being read.
    pub current: Option<(Seq<u8>, Seq<Seq<char>>)>,
    /// The responder.
    pub responder: Option<Seq<u8>>,
    /// How many address fields were read.
    pub used: int,
    /// What stopped the parsing.
    pub bad: Option<Error>,
}

impl LinkRead {
    /// Before anything is read.
    pub open spec fn start() -> LinkRead {
        LinkRead {
            anchors: Seq::empty(),
            current: None,
            responder: None,
            used: 0,
            bad: None,
        }
    }

    /// Stopped by an error.
    pub open spec fn fail(self, what: &'static str) -> LinkRead {
        LinkRead { bad: Some(Error::MalformedLink(what)), ..self }
    }

    /// With the current anchor among the anchors: it must have an address.
    pub open spec fn close(self) -> LinkRead {
        match self.current {
            None => self,
            Some(node) => if self.bad is Some {
                self
            } else if node.1.len() == 0 {
                self.fail("invite link anchor has no address")
            } else {
                LinkRead { anchors: self.anchors.push(node), current: None, ..self }
            },
        }
    }

    /// Whether an identity is that of an anchor read so far.
    pub open spec fn names(self, id: Seq<u8>) -> bool {
        exists|i: int| 0 <= i < self.anchors.len() && (#[trigger] self.anchors[i]).0 == id
    }

    /// After an `a=` field.
    pub open spec fn on_anchor(self, value: Seq<char>) -> LinkRead {
        let c = self.close();
        if c.bad is Some {
            c
        } else if c.anchors.len() >= MAX_LINK_ANCHORS {
            c.fail("invite link anchor count")
        } else if !b32::is_b32(value) {
            c.fail("invite link anchor")
        } else if c.names(b32::digest_of_b32(value)) {
            c.fail("invite link duplicate anchor")
        } else {
            LinkRead { current: Some((b32::digest_of_b32(value), Seq::empty())), ..c }
        }
    }

    /// After a `b=` field. `addr` is what its value parses to.
    pub open spec fn on_address(self, addr: Option<Seq<char>>) -> LinkRead {
        match self.current {
            None => self.fail("invite link address before anchor"),
            Some((id, addrs)) => if addrs.len() >= MAX_ENDPOINTS {
                self.fail("invite link anchor addresses")
            } else {
                match addr {
                    None => self.fail("invite link anchor address"),
                    Some(a) => LinkRead {
                        current: Some((id, addrs.push(a))),
                        used: self.used + 1,
                        ..self
                    },
                }
            },
        }
    }

    /// After an `r=` field.
    pub open spec fn on_responder(self, value: Seq<char>) -> LinkRead {
        if self.responder is Some {
            self.fail("invite link duplicate responder")
        } else if !b32::is_b32(value) {
            self.fail("invite link responder")
        } else {
            LinkRead { responder: Some(b32::digest_of_b32(value)), ..self }
        }
    }

    /// After one more field. `parsed` is what each address field's value parses to.
    pub open spec fn on_field(self, field: Seq<char>, parsed: Seq<Option<Seq<char>>>) -> LinkRead {
        if self.bad is Some || field.len() == 0 {
            self
        } else {
            match scan::once(field, '=') {
                None => self.fail("invite link field"),
                Some((key, value)) => if key == seq!['a'] {
                    self.on_anchor(value)
                } else if key == seq!['b'] {
                    self.on_address(link::address_at(parsed, self.used))
                } else if key == seq!['r'] {
                    self.on_responder(value)
                } else {
                    self.fail("invite link unknown field")
                },
            }
        }
    }
}

/// What is read of some fields.
pub open spec fn read_fields(
    st: LinkRead,
    fields: Seq<Seq<char>>,
    parsed: Seq<Option<Seq<char>>>,
) -> LinkRead
    decreases fields.len(),
{
    if fields.len() == 0 {
        st
    } else {
        read_fields(st, fields.drop_last(), parsed).on_field(fields.last(), parsed)
    }
}

/// The part of a link behind the scheme.
pub open spec fn behind_scheme(text: Seq<char>) -> Seq<char> {
    text.subrange(LINK_SCHEME@.len() as int, text.len() as int)
}

/// The channel part of a link.
pub open spec fn id_part(text: Seq<char>) -> Seq<char> {
    match scan::once(behind_scheme(text), '?') {
        Some((id, q)) => id,
        None => behind_scheme(text),
    }
}

/// The query of a link.
pub open spec fn query_part(text: Seq<char>) -> Seq<char> {
    match scan::once(behind_scheme(text), '?') {
        Some((id, q)) => q,
        None => Seq::empty(),
    }
}

/// What is read of a link's query.
pub open spec fn link_read(text: Seq<char>, parsed: Seq<Option<Seq<char>>>) -> LinkRead {
    read_fields(LinkRead::start(), scan::split(query_part(text), '&'), parsed).close()
}

/// What is wrong with a link, or `None` where it is one. `parsed` is what each address
/// field's value parses to.
pub open spec fn link_fault(text: Seq<char>, parsed: Seq<Option<Seq<char>>>) -> Option<Error> {
    if !LINK_SCHEME@.is_prefix_of(text) {
        Some(Error::MalformedLink("invite link scheme"))
    } else if !b32::is_b32(id_part(text)) {
        Some(Error::MalformedLink("invite link channelID"))
    } else if link_read(text, parsed).bad is Some {
        link_read(text, parsed).bad
    } else if link_read(text, parsed).anchors.len() == 0 {
        Some(Error::MalformedLink("invite link has no anchors"))
    } else {
        None
    }
}

/// The anchor being read: its identity, and its addresses so far.
struct Current {
    id: Digest32,
    addrs: Vec<String>,
}

/// Where the parsing of a query stands.
struct Reader {
    anchors: Vec<BootstrapNode>,
    current: Option<Current>,
    responder: Option<Digest32>,
    used: usize,
}

impl Reader {
    spec fn view(&self) -> LinkRead {
        LinkRead {
            anchors: bootstrap::nodes_view(self.anchors@),
            current: match self.current {
                Some(c) => Some((c.id@, scan::texts(c.addrs@))),
                None => None,
            },
            responder: match self.responder {
                Some(r) => Some(r@),
                None => None,
            },
            used: self.used as int,
            bad: None,
        }
    }

    fn close(&mut self) -> (r: Result<(), Error>)
        ensures
            match r {
                Ok(_) => final(self)@ == old(self)@.close() && final(self).current is None,
                Err(e) => old(self)@.close().bad == Some(e),
            },
    {
        let ghost before = self@;
        match self.current.take() {
            Some(c) => {
                if c.addrs.len() == 0 {
                    return Err(Error::MalformedLink("invite link anchor has no address"));
                }
                let ghost ns = bootstrap::nodes_view(self.anchors@);
                let node: BootstrapNode = BootstrapNode { id: c.id, endpoints: c.addrs };
                self.anchors.push(node);
                assert(bootstrap::nodes_view(self.anchors@) =~= ns.push(node@));
                assert(self@ =~= before.close());
                Ok(())
            },
            None => {
                assert(self@ =~= before.close());
                Ok(())
            },
        }
    }

    fn on_anchor(&mut self, value: &str) -> (r: Result<(), Error>)
        ensures
            match r {
                Ok(_) => final(self)@ == old(self)@.on_anchor(value@) && final(self)@.bad is None,
                Err(e) => old(self)@.on_anchor(value@).bad == Some(e),
            },
    {
        self.close()?;
        if self.anchors.len() >= MAX_LINK_ANCHORS {
            return Err(Error::MalformedLink("invite link anchor count"));
        }
        let id: Digest32 = b32_decode(value, "invite link anchor")?;
        let mut i: usize = 0;
        while i < self.anchors.len()
            invariant
                i <= self.anchors@.len(),
                b32::is_b32(value@),
                id@ == b32::digest_of_b32(value@),
                self@ == old(self)@.close(),
                self@.anchors.len() < MAX_LINK_ANCHORS,
                forall|j: int| 0 <= j < i ==> (#[trigger] self@.anchors[j]).0 != id@,
            decreases self.anchors@.len() - i,
        {
            if same_digest(&self.anchors[i].id, &id) {
                assert(self@.anchors[i as int].0 == id@);
                assert(self@.names(id@));
                return Err(Error::MalformedLink("invite link duplicate anchor"));
            }
            i = i + 1;
        }
        assert(!self@.names(id@));
        let ghost closed = self@;
        self.current = Some(Current { id, addrs: Vec::new() });
        assert(scan::texts(self.current->Some_0.addrs@) =~= Seq::empty());
        assert(self@ =~= old(self)@.on_anchor(value@));
        Ok(())
    }

    fn on_address(&mut self, addr: Option<String>) -> (r: Result<(), Error>)
        requires
            old(self).used < usize::MAX,
        ensures
            match r {
                Ok(_) => final(self)@ == old(self)@.on_address(link::opt_text(addr)),
                Err(e) => old(self)@.on_address(link::opt_text(addr)).bad == Some(e),
            },
    {
        match self.current.take() {
            None => Err(Error::MalformedLink("invite link address before anchor")),
            Some(c) => {
                if c.addrs.len() >= MAX_ENDPOINTS {
                    return Err(Error::MalformedLink("invite link anchor addresses"));
                }
                match addr {
                    Some(a) => {
                        let ghost listed = scan::texts(c.addrs@);
                        let mut addrs: Vec<String> = c.addrs;
                        addrs.push(a);
                        assert(scan::texts(addrs@) =~= listed.push(a@));
                        self.current = Some(Current { id: c.id, addrs });
                        self.used = self.used + 1;
                        Ok(())
                    },
                    None => Err(Error::MalformedLink("invite link anchor address")),
                }
            },
        }
    }

    fn on_responder(&mut self, value: &str) -> (r: Result<(), Error>)
        ensures
            match r {
                Ok(_) => final(self)@ == old(self)@.on_responder(value@),
                Err(e) => old(self)@.on_responder(value@).bad == Some(e),
            },
    {
        if self.responder.is_some() {
            return Err(Error::MalformedLink("invite link duplicate responder"));
        }
        let id: Digest32 = b32_decode(value, "invite link responder")?;
        self.responder = Some(id);
        Ok(())
    }

    fn on_field(&mut self, field: &str, parsed: &Vec<Option<String>>) -> (r: Result<(), Error>)
        requires
            old(self).used < usize::MAX,
        ensures
            match r {
                Ok(_) => {
                    &&& final(self)@ == old(self)@.on_field(field@, link::opt_texts(parsed@))
                    &&& final(self)@.bad is None
                    &&& final(self).used <= old(self).used + 1
                },
                Err(e) => old(self)@.on_field(field@, link::opt_texts(parsed@)).bad == Some(e),
            },
    {
        if field.unicode_len() == 0 {
            return Ok(());
        }
        match split_once(field, '=') {
            None => Err(Error::MalformedLink("invite link field")),
            Some((key, value)) => {
                proof {
                    reveal_strlit("a");
                    reveal_strlit("b");
                    reveal_strlit("r");
                    assert("a"@ =~= seq!['a']);
                    assert("b"@ =~= seq!['b']);
                    assert("r"@ =~= seq!['r']);
                }
                if same_text(key, "a") {
                    self.on_anchor(value)
                } else if same_text(key, "b") {
                    let addr: Option<String> = link::parsed_at(parsed, self.used);
                    self.on_address(addr)
                } else if same_text(key, "r") {
                    self.on_responder(value)
                } else {
                    Err(Error::MalformedLink("invite link unknown field"))
                }
            },
        }
    }
}

proof fn lemma_read_stuck(
    st: LinkRead,
    fields: Seq<Seq<char>>,
    parsed: Seq<Option<Seq<char>>>,
    n: int,
)
    requires
        0 <= n <= fields.len(),
        read_fields(st, fields.take(n), parsed).bad is Some,
    ensures
        read_fields(st, fields, parsed).bad == read_fields(st, fields.take(n), parsed).bad,
    decreases fields.len() - n,
{
    if n < fields.len() {
        assert(fields.take(n + 1).drop_last() =~= fields.take(n));
        lemma_read_stuck(st, fields, parsed, n + 1);
    } else {
        assert(fields.take(n) =~= fields);
    }
}

spec fn sound(st: LinkRead) -> bool {
    st.bad is None ==> {
        &&& st.anchors.len() + (if st.current is Some {
            1int
        } else {
            0
        }) <= MAX_LINK_ANCHORS
        &&& distinct(st.anchors)
        &&& st.current is Some ==> !st.names(st.current->Some_0.0)
    }
}

proof fn lemma_close_sound(st: LinkRead)
    requires
        sound(st),
    ensures
        sound(st.close()),
{
    let c = st.close();
    if c.bad is None && st.current is Some {
        let node = st.current->Some_0;
        assert forall|i: int, j: int| 0 <= i < j < c.anchors.len() implies (#[trigger] c.anchors[i]).0
            != (#[trigger] c.anchors[j]).0 by {
            assert(c.anchors[i] == st.anchors[i]);
            if j == st.anchors.len() {
                assert(c.anchors[j] == node);
                assert(!st.names(node.0));
            }
        }
    }
}

proof fn lemma_read_sound(fields: Seq<Seq<char>>, parsed: Seq<Option<Seq<char>>>)
    ensures
        sound(read_fields(LinkRead::start(), fields, parsed)),
    decreases fields.len(),
{
    if fields.len() > 0 {
        let st = read_fields(LinkRead::start(), fields.drop_last(), parsed);
        lemma_read_sound(fields.drop_last(), parsed);
        lemma_close_sound(st);
        let next = st.on_field(fields.last(), parsed);
        if next.bad is None && next.current is Some {
            if next.names(next.current->Some_0.0) {
                let i = choose|i: int|
                    0 <= i < next.anchors.len() && (#[trigger] next.anchors[i]).0
                        == next.current->Some_0.0;
                assert(st.anchors == next.anchors ==> st.names(next.current->Some_0.0));
            }
        }
    }
}

/// A link that parses names between one and [`MAX_LINK_ANCHORS`] anchors, no two with one
/// identity.
pub proof fn law_parsed_link_is_wf(text: Seq<char>, parsed: Seq<Option<Seq<char>>>)
    requires
        link_fault(text, parsed) is None,
    ensures
        1 <= link_read(text, parsed).anchors.len() <= MAX_LINK_ANCHORS,
        distinct(link_read(text, parsed).anchors),
{
    let fields = scan::split(query_part(text), '&');
    lemma_read_sound(fields, parsed);
    lemma_close_sound(read_fields(LinkRead::start(), fields, parsed));
}

fn scheme_of(text: &str) -> (r: Option<&str>)
    ensures
        match r {
            Some(rest) => LINK_SCHEME@.is_prefix_of(text@) && rest@ == behind_scheme(text@),
            None => !LINK_SCHEME@.is_prefix_of(text@),
        },
{
    let n: usize = LINK_SCHEME.unicode_len();
    let total: usize = text.unicode_len();
    if total < n || !same_text(text.substring_char(0, n), LINK_SCHEME) {
        return None;
    }
    Some(text.substring_char(n, total))
}

impl InviteLink {
    /// Parses a link. `parsed` is what each address text in it ([`link_addresses`])
    /// parses to.
    pub fn parse(text: &str, parsed: &Vec<Option<String>>) -> (r: Result<InviteLink, Error>)
        ensures
            match r {
                Ok(l) => {
                    let read = link_read(text@, link::opt_texts(parsed@));
                    &&& link_fault(text@, link::opt_texts(parsed@)) is None
                    &&& l.wf()
                    &&& l.channel_id@ == b32::digest_of_b32(id_part(text@))
                    &&& bootstrap::nodes_view(l.anchors@) == read.anchors
                    &&& match l.responder {
                        Some(d) => read.responder == Some(d@),
                        None => read.responder is None,
                    }
                },
                Err(e) => link_fault(text@, link::opt_texts(parsed@)) == Some(e),
            },
    {
        let rest: &str = match scheme_of(text) {
            Some(rest) => rest,
            None => {
                return Err(Error::MalformedLink("invite link scheme"));
            },
        };
        let (id, query): (&str, &str) = match split_once(rest, '?') {
            Some((id, q)) => (id, q),
            None => {
                proof {
                    reveal_strlit("");
                    assert(""@ =~= Seq::empty());
                }
                (rest, "")
            },
        };
        let channel_id: Digest32 = b32_decode(id, "invite link channelID")?;
        let fields: Vec<String> = split_text(query, '&');
        let ghost fs = scan::split(query_part(text@), '&');
        let ghost ps = link::opt_texts(parsed@);
        let mut reader: Reader = Reader {
            anchors: Vec::new(),
            current: None,
            responder: None,
            used: 0,
        };
        let mut i: usize = 0;
        proof {
            assert(fs.take(0) =~= Seq::empty());
            assert(reader@ =~= LinkRead::start());
        }
        while i < fields.len()
            invariant
                i <= fields@.len(),
                reader.used <= i,
                fs == scan::texts(fields@),
                fs == scan::split(query_part(text@), '&'),
                ps == link::opt_texts(parsed@),
                LINK_SCHEME@.is_prefix_of(text@),
                b32::is_b32(id_part(text@)),
                reader@ == read_fields(LinkRead::start(), fs.take(i as int), ps),
            decreases fields@.len() - i,
        {
            proof {
                assert(fs.take(i + 1).drop_last() =~= fs.take(i as int));
                assert(fs.take(i + 1).last() == fields@[i as int]@);
            }
            match reader.on_field(fields[i].as_str(), parsed) {
                Ok(_) => {},
                Err(e) => {
                    proof {
                        lemma_read_stuck(LinkRead::start(), fs, ps, i + 1);
                    }
                    return Err(e);
                },
            }
            i = i + 1;
        }
        assert(fs.take(i as int) =~= fs);
        reader.close()?;
        if reader.anchors.len() == 0 {
            return Err(Error::MalformedLink("invite link has no anchors"));
        }
        proof {
            law_parsed_link_is_wf(text@, ps);
        }
        Ok(InviteLink { channel_id, anchors: reader.anchors, responder: reader.responder })
    }
}

/// The values of the address fields among some fields, in order.
pub open spec fn address_values(fields: Seq<Seq<char>>) -> Seq<Seq<char>>
    decreases fields.len(),
{
    if fields.len() == 0 {
        Seq::empty()
    } else {
        let front = address_values(fields.drop_last());
        match scan::once(fields.last(), '=') {
            Some((key, value)) => if key == seq!['b'] {
                front.push(value)
            } else {
                front
            },
            None => front,
        }
    }
}

/// The address texts in a link, in order: what is to be parsed before the link is.
pub fn link_addresses(text: &str) -> (out: Vec<String>)
    ensures
        scan::texts(out@) == (if LINK_SCHEME@.is_prefix_of(text@) {
            address_values(scan::split(query_part(text@), '&'))
        } else {
            Seq::empty()
        }),
{
    let mut out: Vec<String> = Vec::new();
    assert(scan::texts(out@) =~= Seq::empty());
    let rest: &str = match scheme_of(text) {
        Some(rest) => rest,
        None => {
            return out;
        },
    };
    let query: &str = match split_once(rest, '?') {
        Some((_, q)) => q,
        None => {
            proof {
                reveal_strlit("");
                assert(""@ =~= Seq::empty());
            }
            ""
        },
    };
    let fields: Vec<String> = split_text(query, '&');
    let ghost fs = scan::split(query_part(text@), '&');
    let mut i: usize = 0;
    assert(fs.take(0) =~= Seq::empty());
    while i < fields.len()
        invariant
            i <= fields@.len(),
            fs == scan::texts(fields@),
            scan::texts(out@) == address_values(fs.take(i as int)),
        decreases fields@.len() - i,
    {
        let ghost sofar = scan::texts(out@);
        proof {
            assert(fs.take(i + 1).drop_last() =~= fs.take(i as int));
            assert(fs.take(i + 1).last() == fields@[i as int]@);
            reveal_strlit("b");
            assert("b"@ =~= seq!['b']);
        }
        match split_once(fields[i].as_str(), '=') {
            Some((key, value)) => {
                if same_text(key, "b") {
                    out.push(value.to_owned());
                    assert(scan::texts(out@) =~= sofar.push(value@));
                }
            },
            None => {},
        }
        i = i + 1;
    }
    assert(fs.take(i as int) =~= fs);
    out
}

// ---- a rendered link is read back ------------------------------------------------

/// The addresses of some nodes, one after another.
pub open spec fn all_addresses(nodes: Seq<(Seq<u8>, Seq<Seq<char>>)>) -> Seq<Seq<char>>
    decreases nodes.len(),
{
    if nodes.len() == 0 {
        Seq::empty()
    } else {
        all_addresses(nodes.drop_last()) + nodes.last().1
    }
}

/// Whether a node's addresses can stand in a link: there are some, not too many, and
/// none of them holds the separator.
pub open spec fn linkable(node: (Seq<u8>, Seq<Seq<char>>)) -> bool {
    &&& node.0.len() == 32
    &&& 1 <= node.1.len() <= MAX_ENDPOINTS
    &&& forall|i: int| 0 <= i < node.1.len() ==> !(#[trigger] node.1[i]).contains('&')
}

/// Whether each of some nodes can stand in a link.
pub open spec fn all_linkable(nodes: Seq<(Seq<u8>, Seq<Seq<char>>)>) -> bool {
    forall|i: int| 0 <= i < nodes.len() ==> linkable(#[trigger] nodes[i])
}

spec fn join(fields: Seq<Seq<char>>) -> Seq<char>
    decreases fields.len(),
{
    if fields.len() <= 1 {
        fields[0]
    } else {
        join(fields.drop_last()).push('&') + fields.last()
    }
}

spec fn whole(fields: Seq<Seq<char>>) -> bool {
    forall|i: int| 0 <= i < fields.len() ==> !(#[trigger] fields[i]).contains('&')
}

proof fn lemma_query(fields: Seq<Seq<char>>)
    requires
        fields.len() > 0,
    ensures
        query_of(fields) == seq!['?'] + join(fields),
    decreases fields.len(),
{
    if fields.len() == 1 {
        assert(query_of(fields.drop_last()) =~= Seq::empty());
        assert(query_of(fields) =~= seq!['?'] + join(fields));
    } else {
        lemma_query(fields.drop_last());
        assert(query_of(fields) =~= seq!['?'] + join(fields));
    }
}

proof fn lemma_split_of_join(fields: Seq<Seq<char>>)
    requires
        fields.len() > 0,
        whole(fields),
    ensures
        scan::split(join(fields), '&') == fields,
    decreases fields.len(),
{
    assert(!fields[fields.len() - 1].contains('&'));
    if fields.len() == 1 {
        scan::lemma_split_one(fields[0], '&');
        assert(seq![fields[0]] =~= fields);
    } else {
        let front = fields.drop_last();
        assert forall|i: int| 0 <= i < front.len() implies !(#[trigger] front[i]).contains('&') by {
            assert(front[i] == fields[i]);
        }
        lemma_split_of_join(front);
        scan::lemma_split_join(join(front), '&', fields.last());
        assert(front.push(fields.last()) =~= fields);
    }
}

proof fn lemma_read_concat(
    st: LinkRead,
    a: Seq<Seq<char>>,
    b: Seq<Seq<char>>,
    parsed: Seq<Option<Seq<char>>>,
)
    ensures
        read_fields(st, a + b, parsed) == read_fields(read_fields(st, a, parsed), b, parsed),
    decreases b.len(),
{
    if b.len() == 0 {
        assert(a + b =~= a);
    } else {
        assert((a + b).drop_last() =~= a + b.drop_last());
        lemma_read_concat(st, a, b.drop_last(), parsed);
    }
}

proof fn lemma_field(key: char, value: Seq<char>)
    requires
        key != '=',
    ensures
        scan::once(seq![key, '='] + value, '=') == Some((seq![key], value)),
        (seq![key, '='] + value).len() > 0,
{
    let a = seq![key];
    assert(!a.contains('='));
    scan::lemma_once(a, '=', value);
    assert(seq![key, '='] =~= a.push('='));
}

proof fn lemma_field_whole(key: char, value: Seq<char>)
    requires
        key != '&',
        !value.contains('&'),
    ensures
        !(seq![key, '='] + value).contains('&'),
{
    let f = seq![key, '='] + value;
    if f.contains('&') {
        let i = choose|i: int| 0 <= i < f.len() && f[i] == '&';
        if i >= 2 {
            assert(value[i - 2] == '&');
        }
    }
}

proof fn lemma_read_addresses(
    st: LinkRead,
    id: Seq<u8>,
    addrs: Seq<Seq<char>>,
    parsed: Seq<Option<Seq<char>>>,
    n: nat,
)
    requires
        st.bad is None,
        st.current == Some((id, Seq::<Seq<char>>::empty())),
        n <= addrs.len() <= MAX_ENDPOINTS,
        0 <= st.used,
        st.used + addrs.len() <= parsed.len(),
        forall|k: int| 0 <= k < addrs.len() ==> parsed[st.used + k] == Some(#[trigger] addrs[k]),
    ensures
        read_fields(st, address_fields(addrs).take(n as int), parsed) == (LinkRead {
            current: Some((id, addrs.take(n as int))),
            used: st.used + n,
            ..st
        }),
    decreases n,
{
    let fs = address_fields(addrs);
    if n == 0 {
        assert(fs.take(0) =~= Seq::empty());
        assert(addrs.take(0) =~= Seq::empty());
    } else {
        let m = (n - 1) as nat;
        lemma_read_addresses(st, id, addrs, parsed, m);
        assert(fs.take(n as int).drop_last() =~= fs.take(m as int));
        let addr = addrs[m as int];
        assert(fs.take(n as int).last() == seq!['b', '='] + addr);
        lemma_field('b', addr);
        assert(seq!['b'] != seq!['a']) by {
            assert(seq!['b'][0] != seq!['a'][0]);
        }
        assert(addrs.take(m as int).push(addr) =~= addrs.take(n as int));
        let mid = read_fields(st, fs.take(m as int), parsed);
        assert(mid.current == Some((id, addrs.take(m as int))));
        assert(link::address_at(parsed, mid.used) == Some(addr));
    }
}

spec fn anchors_done(nodes: Seq<(Seq<u8>, Seq<Seq<char>>)>) -> LinkRead {
    LinkRead {
        anchors: if nodes.len() == 0 {
            Seq::empty()
        } else {
            nodes.drop_last()
        },
        current: if nodes.len() == 0 {
            None
        } else {
            Some(nodes.last())
        },
        responder: None,
        used: all_addresses(nodes).len() as int,
        bad: None,
    }
}

proof fn lemma_read_anchors(
    nodes: Seq<(Seq<u8>, Seq<Seq<char>>)>,
    parsed: Seq<Option<Seq<char>>>,
)
    requires
        nodes.len() <= MAX_LINK_ANCHORS,
        distinct(nodes),
        all_linkable(nodes),
        all_addresses(nodes).len() <= parsed.len(),
        forall|k: int|
            0 <= k < all_addresses(nodes).len() ==> parsed[k] == Some(
                #[trigger] all_addresses(nodes)[k],
            ),
    ensures
        read_fields(LinkRead::start(), anchor_fields(nodes), parsed) == anchors_done(nodes),
    decreases nodes.len(),
{
    if nodes.len() == 0 {
        assert(anchors_done(nodes) =~= LinkRead::start());
    } else {
        let front = nodes.drop_last();
        let last = nodes.last();
        let listed = all_addresses(front);
        assert(linkable(nodes[nodes.len() - 1]));
        assert forall|i: int| 0 <= i < front.len() implies linkable(#[trigger] front[i]) by {
            assert(front[i] == nodes[i]);
        }
        assert forall|i: int, j: int| 0 <= i < j < front.len() implies (#[trigger] front[i]).0 != (
        #[trigger] front[j]).0 by {
            assert(front[i] == nodes[i] && front[j] == nodes[j]);
        }
        assert forall|k: int| 0 <= k < listed.len() implies parsed[k] == Some(
            #[trigger] listed[k],
        ) by {
            assert(all_addresses(nodes)[k] == listed[k]);
        }
        lemma_read_anchors(front, parsed);
        let st = anchors_done(front);
        let value = b32::b32_of(last.0);
        let head = anchor_fields(front).push(seq!['a', '='] + value);
        assert(head.drop_last() =~= anchor_fields(front));
        lemma_field('a', value);
        b32::law_b32_read_back(last.0);
        // The anchor before is closed, and the new one opened.
        let closed = st.close();
        assert(closed.anchors =~= front) by {
            if front.len() > 0 {
                assert(linkable(front[front.len() - 1]));
                assert(front.drop_last().push(front.last()) =~= front);
            }
        }
        assert(closed.bad is None);
        assert(!closed.names(last.0)) by {
            if closed.names(last.0) {
                let i = choose|i: int|
                    0 <= i < closed.anchors.len() && (#[trigger] closed.anchors[i]).0 == last.0;
                assert(nodes[i].0 == nodes[nodes.len() - 1].0);
            }
        }
        let opened = read_fields(LinkRead::start(), head, parsed);
        assert(opened == st.on_field(seq!['a', '='] + value, parsed));
        assert(opened =~= LinkRead {
            anchors: front,
            current: Some((last.0, Seq::empty())),
            responder: None,
            used: listed.len() as int,
            bad: None,
        });
        assert forall|k: int| 0 <= k < last.1.len() implies parsed[opened.used + k] == Some(
            #[trigger] last.1[k],
        ) by {
            assert(all_addresses(nodes)[listed.len() + k] == last.1[k]);
        }
        lemma_read_addresses(opened, last.0, last.1, parsed, last.1.len());
        assert(address_fields(last.1).take(last.1.len() as int) =~= address_fields(last.1));
        assert(last.1.take(last.1.len() as int) =~= last.1);
        lemma_read_concat(LinkRead::start(), head, address_fields(last.1), parsed);
        assert(read_fields(LinkRead::start(), anchor_fields(nodes), parsed) =~= anchors_done(
            nodes,
        ));
    }
}

proof fn lemma_anchor_fields_whole(nodes: Seq<(Seq<u8>, Seq<Seq<char>>)>)
    requires
        all_linkable(nodes),
    ensures
        whole(anchor_fields(nodes)),
        nodes.len() > 0 ==> anchor_fields(nodes).len() > 0,
        address_values(anchor_fields(nodes)) == all_addresses(nodes),
    decreases nodes.len(),
{
    if nodes.len() > 0 {
        let front = nodes.drop_last();
        let last = nodes.last();
        assert(linkable(nodes[nodes.len() - 1]));
        assert forall|i: int| 0 <= i < front.len() implies linkable(#[trigger] front[i]) by {
            assert(front[i] == nodes[i]);
        }
        lemma_anchor_fields_whole(front);
        link::lemma_b32_chars(last.0, '&');
        let value = b32::b32_of(last.0);
        let f = seq!['a', '='] + value;
        let head = anchor_fields(front).push(f);
        lemma_field_whole('a', value);
        let all = anchor_fields(nodes);
        assert forall|i: int| 0 <= i < all.len() implies !(#[trigger] all[i]).contains('&') by {
            if i < anchor_fields(front).len() {
                assert(all[i] == anchor_fields(front)[i]);
            } else if i == anchor_fields(front).len() {
                assert(all[i] == f);
            } else {
                let k = i - head.len();
                assert(all[i] == address_fields(last.1)[k]);
                assert(!last.1[k].contains('&'));
                lemma_field_whole('b', last.1[k]);
            }
        }
        lemma_field('a', value);
        assert(head.drop_last() =~= anchor_fields(front));
        assert(seq!['a'] != seq!['b']) by {
            assert(seq!['a'][0] != seq!['b'][0]);
        }
        assert(address_values(head) == all_addresses(front));
        lemma_values_of_addresses(head, last.1, last.1.len());
        assert(address_fields(last.1).take(last.1.len() as int) =~= address_fields(last.1));
        assert(last.1.take(last.1.len() as int) =~= last.1);
    }
}

proof fn lemma_values_of_addresses(head: Seq<Seq<char>>, addrs: Seq<Seq<char>>, n: nat)
    requires
        n <= addrs.len(),
    ensures
        address_values(head + address_fields(addrs).take(n as int)) == address_values(head)
            + addrs.take(n as int),
    decreases n,
{
    let fs = address_fields(addrs);
    if n == 0 {
        assert(head + fs.take(0) =~= head);
        assert(address_values(head) + addrs.take(0) =~= address_values(head));
    } else {
        let m = (n - 1) as nat;
        lemma_values_of_addresses(head, addrs, m);
        let all = head + fs.take(n as int);
        assert(all.drop_last() =~= head + fs.take(m as int));
        assert(all.last() == seq!['b', '='] + addrs[m as int]);
        lemma_field('b', addrs[m as int]);
        assert(address_values(all) =~= address_values(head) + addrs.take(n as int));
    }
}

/// What each of some addresses parses to where it is in its canonical form: itself.
pub open spec fn as_parsed(addrs: Seq<Seq<char>>) -> Seq<Option<Seq<char>>> {
    Seq::new(addrs.len(), |i: int| Some(addrs[i]))
}

/// A link is read back as it was rendered: the address texts found in it are those of
/// its anchors, and once each has parsed to itself, so are the channel, the anchors in
/// their order and the responder.
pub proof fn law_link_read_back(l: InviteLink)
    requires
        l.wf(),
        all_linkable(bootstrap::nodes_view(l.anchors@)),
    ensures
        LINK_SCHEME@.is_prefix_of(l.url()),
        address_values(scan::split(query_part(l.url()), '&')) == all_addresses(
            bootstrap::nodes_view(l.anchors@),
        ),
        ({
            let parsed = as_parsed(all_addresses(bootstrap::nodes_view(l.anchors@)));
            let read = link_read(l.url(), parsed);
            &&& link_fault(l.url(), parsed) is None
            &&& b32::digest_of_b32(id_part(l.url())) == l.channel_id@
            &&& read.anchors == bootstrap::nodes_view(l.anchors@)
            &&& read.responder == (match l.responder {
                Some(r) => Some(r@),
                None => None,
            })
        }),
{
    let nodes = bootstrap::nodes_view(l.anchors@);
    let fields = l.fields();
    let ids = b32::b32_of(l.channel_id@);
    let parsed = as_parsed(all_addresses(nodes));
    lemma_anchor_fields_whole(nodes);
    lemma_query(fields);
    // The scheme, the channel and the query come apart again.
    let url = l.url();
    assert(url =~= LINK_SCHEME@ + (ids + query_of(fields)));
    assert(LINK_SCHEME@.is_prefix_of(url)) by {
        assert(url.subrange(0, LINK_SCHEME@.len() as int) =~= LINK_SCHEME@);
    }
    assert(behind_scheme(url) =~= ids + query_of(fields));
    link::lemma_b32_chars(l.channel_id@, '?');
    scan::lemma_once(ids, '?', join(fields));
    assert(behind_scheme(url) =~= ids.push('?') + join(fields));
    b32::law_b32_read_back(l.channel_id@);
    // The fields come apart again.
    assert(whole(fields)) by {
        assert forall|i: int| 0 <= i < fields.len() implies !(#[trigger] fields[i]).contains('&') by {
            let af = anchor_fields(nodes);
            if i < af.len() {
                assert(fields[i] == af[i]);
            } else {
                let r = l.responder->Some_0;
                link::lemma_b32_chars(r@, '&');
                lemma_field_whole('r', b32::b32_of(r@));
                assert(fields[i] == seq!['r', '='] + b32::b32_of(r@));
            }
        }
    }
    lemma_split_of_join(fields);
    // And each is read as it was written.
    lemma_read_anchors(nodes, parsed);
    lemma_read_concat(
        LinkRead::start(),
        anchor_fields(nodes),
        responder_fields(l.responder),
        parsed,
    );
    let done = anchors_done(nodes);
    assert(linkable(nodes[nodes.len() - 1]));
    assert(nodes.drop_last().push(nodes.last()) =~= nodes);
    match l.responder {
        Some(r) => {
            let value = b32::b32_of(r@);
            let f = seq!['r', '='] + value;
            lemma_field('r', value);
            b32::law_b32_read_back(r@);
            assert(seq!['r'] != seq!['a'] && seq!['r'] != seq!['b']) by {
                assert(seq!['r'][0] == 'r');
                assert(seq!['a'][0] == 'a');
                assert(seq!['b'][0] == 'b');
            }
            assert(responder_fields(l.responder).drop_last() =~= Seq::empty());
            assert(responder_fields(l.responder).last() == f);
            assert(read_fields(done, responder_fields(l.responder), parsed) == done.on_field(
                f,
                parsed,
            )) by {
                assert(read_fields(done, Seq::empty(), parsed) == done);
            }
            let af = anchor_fields(nodes);
            assert(fields.drop_last() =~= af);
            assert(fields.last() == f);
        },
        None => {
            assert(fields =~= anchor_fields(nodes));
        },
    }
}

} // verus!
