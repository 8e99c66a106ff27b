//! The `vox://` invite link.
//!
//! ```text
//! vox://<channel-base32>?a=<anchor-base32>&b=<address>[&b=<address>…][&a=…&b=…][&r=<responder-base32>]
//! ```
//!
//! It carries only what is needed to find the swarm: the channel, one or more anchors,
//! each with the addresses it is reached at, and optionally a pin of the member to join
//! through. It has no room for a secret. Parsing is strict: nothing about a link is
//! guessed.

use vstd::prelude::*;
use vstd::string::*;

use crate::bootstrap::{self, BootstrapNode, BootstrapSet, MAX_ENDPOINTS};
use crate::error::Error;
use crate::hash::{same_digest, Digest32};
use crate::link::b32::{b32_decode, b32_encode};
use crate::link::scan::{split_once, split_text, trim, without_dots};
use crate::text::same_text;

pub mod b32;
pub mod invite;
pub mod laws;
pub mod scan;

pub use crate::link::invite::{link_addresses, InviteLink};

verus! {

/// The most anchors one link names.
pub const MAX_LINK_ANCHORS: usize = 4;

/// The URL scheme, with its separator.
pub const LINK_SCHEME: &'static str = "vox://";

/// What a room's hostname ends in.
pub const VOX_TLD: &'static str = ".vox";

// ---- hostnames -----------------------------------------------------------------

/// The hostname of a room: the same characters that begin its invite link, and the
/// suffix.
pub open spec fn hostname_of(channel_id: Seq<u8>) -> Seq<char> {
    b32::b32_of(channel_id) + VOX_TLD@
}

/// The hostname of a room.
#[must_use]
pub fn vox_hostname(channel_id: &Digest32) -> (out: String)
    ensures
        out@ == hostname_of(channel_id@),
{
    let mut out: String = b32_encode(channel_id);
    out.append(VOX_TLD);
    out
}

/// What is read of a hostname: without white space around it, and without the dots it
/// ends in.
pub open spec fn host_read(host: Seq<char>) -> Seq<char> {
    scan::trim_dots(scan::trimmed(host))
}

/// Whether a text ends in the suffix, in any mix of cases.
pub open spec fn has_tld(s: Seq<char>) -> bool {
    let n = s.len();
    &&& n >= 4
    &&& s[n - 4] == '.'
    &&& b32::lower(s[n - 3]) == 'v'
    &&& b32::lower(s[n - 2]) == 'o'
    &&& b32::lower(s[n - 1]) == 'x'
}

/// The label in front of the suffix.
pub open spec fn label_of(s: Seq<char>) -> Seq<char> {
    s.subrange(0, s.len() - 4)
}

/// What is wrong with a hostname, or `None` where it names a room.
pub open spec fn host_fault(host: Seq<char>) -> Option<Error> {
    let s = host_read(host);
    if !has_tld(s) {
        Some(Error::MalformedLink("not a .vox hostname"))
    } else if label_of(s).contains('.') {
        Some(Error::MalformedLink("a .vox hostname has one label"))
    } else if !b32::is_b32(label_of(s)) {
        Some(Error::MalformedLink("vox hostname"))
    } else {
        None
    }
}

fn is_letter(c: char, low: char, up: char) -> (r: bool)
    requires
        'a' <= low <= 'z',
        up as int == low as int - 32,
    ensures
        r == (b32::lower(c) == low),
{
    c == low || c == up
}

/// The room that a hostname names. Case does not matter; everything else does: the
/// label is exactly the rendering of a digest.
pub fn channel_of_hostname(host: &str) -> (r: Result<Digest32, Error>)
    ensures
        match r {
            Ok(d) => host_fault(host@) is None && d@ == b32::digest_of_b32(
                label_of(host_read(host@)),
            ),
            Err(e) => host_fault(host@) == Some(e),
        },
{
    let s: &str = without_dots(trim(host));
    let n: usize = s.unicode_len();
    if n < 4 || s.get_char(n - 4) != '.' || !is_letter(s.get_char(n - 3), 'v', 'V') || !is_letter(
        s.get_char(n - 2),
        'o',
        'O',
    ) || !is_letter(s.get_char(n - 1), 'x', 'X') {
        return Err(Error::MalformedLink("not a .vox hostname"));
    }
    let label: &str = s.substring_char(0, n - 4);
    let mut i: usize = 0;
    while i < n - 4
        invariant
            4 <= n,
            i <= n - 4,
            label@.len() == n - 4,
            has_tld(host_read(host@)),
            label@ == label_of(host_read(host@)),
            forall|j: int| 0 <= j < i ==> label@[j] != '.',
        decreases n - 4 - i,
    {
        if label.get_char(i) == '.' {
            assert(label@[i as int] == '.');
            return Err(Error::MalformedLink("a .vox hostname has one label"));
        }
        i = i + 1;
    }
    assert(!label@.contains('.'));
    b32_decode(label, "vox hostname")
}

/// A rendered digest holds nothing but letters and the digits 2 to 7.
pub proof fn lemma_b32_chars(d: Seq<u8>, c: char)
    requires
        !('a' <= c <= 'z') && !('2' <= c <= '7'),
    ensures
        !b32::b32_of(d).contains(c),
{
    if b32::b32_of(d).contains(c) {
        let j = choose|j: int| 0 <= j < b32::b32_of(d).len() && b32::b32_of(d)[j] == c;
        let v = b32::group(d, j);
        assert(b32::b32_of(d)[j] == b32::digit_char(v));
        assert(0 <= b32::bit(d, 5 * j) <= 1 && 0 <= b32::bit(d, 5 * j + 1) <= 1 && 0 <= b32::bit(
            d,
            5 * j + 2,
        ) <= 1 && 0 <= b32::bit(d, 5 * j + 3) <= 1 && 0 <= b32::bit(d, 5 * j + 4) <= 1);
        assert(0 <= v < 32);
    }
}

/// A room's hostname names that room.
pub proof fn law_hostname_read_back(channel_id: Seq<u8>)
    requires
        channel_id.len() == 32,
    ensures
        host_fault(hostname_of(channel_id)) is None,
        b32::digest_of_b32(label_of(host_read(hostname_of(channel_id)))) == channel_id,
{
    reveal_strlit(".vox");
    let h = hostname_of(channel_id);
    let t = b32::b32_of(channel_id);
    b32::law_b32_read_back(channel_id);
    assert(h.last() == 'x');
    assert(h[0] == t[0]);
    assert(b32::digit_value(t[0]) is Some);
    assert(scan::trim_start(h) == h);
    assert(scan::trim_end(h) == h);
    assert(scan::trim_dots(h) == h);
    assert(label_of(h) =~= t);
    lemma_b32_chars(channel_id, '.');
}

// ---- anchor specifications -------------------------------------------------------

/// The address text in an anchor specification, where it has one: what stands behind the
/// `@`.
pub open spec fn spec_address(text: Seq<char>) -> Seq<char> {
    match scan::once(text, '@') {
        Some((id, addr)) => scan::trimmed(addr),
        None => Seq::empty(),
    }
}

/// The address text in an anchor specification, where it has one.
pub fn anchor_spec_address(text: &str) -> (out: String)
    ensures
        out@ == spec_address(text@),
{
    match split_once(text, '@') {
        Some((_, addr)) => trim(addr).to_owned(),
        None => String::new(),
    }
}

/// What is wrong with an anchor specification, or `None` where it is one. `parsed` is
/// what its address text parses to.
pub open spec fn spec_fault(text: Seq<char>, parsed: Option<Seq<char>>) -> Option<Error> {
    match scan::once(text, '@') {
        None => Some(
            Error::MalformedLink("anchor spec: expected <fingerprint>@<multiaddr>"),
        ),
        Some((id, addr)) => if !b32::is_b32(scan::trimmed(id)) {
            Some(Error::MalformedLink("anchor spec fingerprint"))
        } else if parsed is None {
            Some(Error::MalformedLink("anchor spec address"))
        } else {
            None
        },
    }
}

/// The identity that an anchor specification names.
pub open spec fn spec_id(text: Seq<char>) -> Seq<u8> {
    b32::digest_of_b32(scan::trimmed(scan::once(text, '@')->Some_0.0))
}

/// An optional text by content.
pub open spec fn opt_text(t: Option<String>) -> Option<Seq<char>> {
    match t {
        Some(s) => Some(s@),
        None => None,
    }
}

/// Parses one anchor as a command line or a file names it: `<fingerprint>@<address>`.
/// `parsed` is what the address text ([`anchor_spec_address`]) parses to.
pub fn parse_anchor_spec(text: &str, parsed: Option<String>) -> (r: Result<BootstrapNode, Error>)
    ensures
        match r {
            Ok(n) => spec_fault(text@, opt_text(parsed)) is None && n@ == (
                spec_id(text@),
                seq![parsed->Some_0@],
            ),
            Err(e) => spec_fault(text@, opt_text(parsed)) == Some(e),
        },
{
    let id: &str = match split_once(text, '@') {
        Some((id, _)) => id,
        None => {
            return Err(
                Error::MalformedLink("anchor spec: expected <fingerprint>@<multiaddr>"),
            );
        },
    };
    let id: Digest32 = b32_decode(trim(id), "anchor spec fingerprint")?;
    match parsed {
        Some(addr) => {
            let mut endpoints: Vec<String> = Vec::new();
            endpoints.push(addr);
            assert(scan::texts(endpoints@) =~= seq![addr@]);
            Ok(BootstrapNode { id, endpoints })
        },
        None => Err(Error::MalformedLink("anchor spec address")),
    }
}

/// Where in a set the node with an identity stands.
pub open spec fn node_at(nodes: Seq<(Seq<u8>, Seq<Seq<char>>)>, id: Seq<u8>) -> int
    decreases nodes.len(),
{
    if nodes.len() == 0 || nodes[0].0 == id {
        0
    } else {
        1 + node_at(nodes.drop_first(), id)
    }
}

proof fn lemma_node_at(nodes: Seq<(Seq<u8>, Seq<Seq<char>>)>, id: Seq<u8>, i: int)
    requires
        0 <= i <= nodes.len(),
        forall|j: int| 0 <= j < i ==> (#[trigger] nodes[j]).0 != id,
        i < nodes.len() ==> nodes[i].0 == id,
    ensures
        node_at(nodes, id) == i,
    decreases nodes.len(),
{
    if i > 0 {
        assert(nodes[0].0 != id);
        let rest = nodes.drop_first();
        assert forall|j: int| 0 <= j < i - 1 implies (#[trigger] rest[j]).0 != id by {
            assert(rest[j] == nodes[j + 1]);
        }
        lemma_node_at(rest, id, i - 1);
    }
}

/// An address list with one more, unless it lists it already.
pub open spec fn with_address(addrs: Seq<Seq<char>>, addr: Seq<char>) -> Seq<Seq<char>> {
    if addrs.contains(addr) {
        addrs
    } else {
        addrs.push(addr)
    }
}

/// A set with one more address: merged into the node that the set already names, or as a
/// node of its own at the end.
pub open spec fn with_anchor(
    nodes: Seq<(Seq<u8>, Seq<Seq<char>>)>,
    id: Seq<u8>,
    addr: Seq<char>,
) -> Seq<(Seq<u8>, Seq<Seq<char>>)> {
    let i = node_at(nodes, id);
    if i < nodes.len() {
        nodes.update(i, (id, with_address(nodes[i].1, addr)))
    } else {
        nodes.push((id, seq![addr]))
    }
}

/// Whether an address is one too many for the node that a set already names.
pub open spec fn anchor_full(
    nodes: Seq<(Seq<u8>, Seq<Seq<char>>)>,
    id: Seq<u8>,
    addr: Seq<char>,
) -> bool {
    let i = node_at(nodes, id);
    i < nodes.len() && with_address(nodes[i].1, addr).len() > MAX_ENDPOINTS
}

/// The error for an address too many.
pub open spec fn too_many_addresses() -> Error {
    Error::SizeLimitExceeded("endpoint list")
}

fn find_node(nodes: &Vec<BootstrapNode>, id: &Digest32) -> (r: usize)
    ensures
        r <= nodes@.len(),
        r == node_at(bootstrap::nodes_view(nodes@), id@),
        r < nodes@.len() ==> nodes@[r as int].id == *id,
{
    let ghost vs = bootstrap::nodes_view(nodes@);
    let mut i: usize = 0;
    while i < nodes.len()
        invariant
            i <= nodes@.len(),
            vs == bootstrap::nodes_view(nodes@),
            forall|j: int| 0 <= j < i ==> (#[trigger] vs[j]).0 != id@,
        decreases nodes@.len() - i,
    {
        if same_digest(&nodes[i].id, id) {
            proof {
                lemma_node_at(vs, id@, i as int);
            }
            return i;
        }
        assert(vs[i as int].0 != id@);
        i = i + 1;
    }
    proof {
        lemma_node_at(vs, id@, i as int);
    }
    i
}

fn lists_text(v: &Vec<String>, t: &str) -> (r: bool)
    ensures
        r == scan::texts(v@).contains(t@),
{
    let mut i: usize = 0;
    while i < v.len()
        invariant
            i <= v@.len(),
            forall|j: int| 0 <= j < i ==> #[trigger] scan::texts(v@)[j] != t@,
        decreases v@.len() - i,
    {
        if same_text(v[i].as_str(), t) {
            assert(scan::texts(v@)[i as int] == t@);
            return true;
        }
        i = i + 1;
    }
    false
}

/// Adds an anchor specification to a set, merging its address into an anchor the set
/// already names.
pub fn merge_anchor_spec(set: &mut BootstrapSet, text: &str, parsed: Option<String>) -> (r: Result<
    (),
    Error,
>)
    ensures
        match r {
            Ok(_) => {
                &&& spec_fault(text@, opt_text(parsed)) is None
                &&& !anchor_full(
                    bootstrap::nodes_view(old(set).nodes@),
                    spec_id(text@),
                    parsed->Some_0@,
                )
                &&& bootstrap::nodes_view(final(set).nodes@) == with_anchor(
                    bootstrap::nodes_view(old(set).nodes@),
                    spec_id(text@),
                    parsed->Some_0@,
                )
            },
            Err(e) => {
                &&& *final(set) == *old(set)
                &&& match spec_fault(text@, opt_text(parsed)) {
                    Some(f) => e == f,
                    None => anchor_full(
                        bootstrap::nodes_view(old(set).nodes@),
                        spec_id(text@),
                        parsed->Some_0@,
                    ) && e == too_many_addresses(),
                }
            },
        },
{
    let ghost addr = opt_text(parsed);
    let node: BootstrapNode = parse_anchor_spec(text, parsed)?;
    let ghost before = bootstrap::nodes_view(set.nodes@);
    assert(node@.1 =~= seq![addr->Some_0]);
    assert(scan::texts(node.endpoints@)[0] == addr->Some_0);
    let i: usize = find_node(&set.nodes, &node.id);
    if i == set.nodes.len() {
        set.nodes.push(node);
        assert(bootstrap::nodes_view(set.nodes@) =~= before.push(node@));
        return Ok(());
    }
    let a: &String = &node.endpoints[0];
    if lists_text(&set.nodes[i].endpoints, a.as_str()) {
        assert(before.update(i as int, before[i as int]) =~= before);
        if set.nodes[i].endpoints.len() > MAX_ENDPOINTS {
            return Err(Error::SizeLimitExceeded("endpoint list"));
        }
        return Ok(());
    }
    if set.nodes[i].endpoints.len() >= MAX_ENDPOINTS {
        return Err(Error::SizeLimitExceeded("endpoint list"));
    }
    let mut merged: BootstrapNode = set.nodes[i].copy();
    let ghost listed = scan::texts(merged.endpoints@);
    merged.endpoints.push(a.clone());
    assert(scan::texts(merged.endpoints@) =~= listed.push(addr->Some_0));
    set.nodes.set(i, merged);
    assert(bootstrap::nodes_view(set.nodes@) =~= before.update(i as int, merged@));
    Ok(())
}

/// Whether a line of an anchors file is skipped: blank, or a comment.
pub open spec fn is_skipped(line: Seq<char>) -> bool {
    scan::trimmed(line).len() == 0 || scan::trimmed(line)[0] == '#'
}

/// A specification that an anchors file lists, and the line that it stands on.
#[derive(Debug, PartialEq, Eq)]
pub struct AnchorLine {
    /// The line, counted from 1.
    pub line: usize,
    /// The specification.
    pub spec: String,
}

impl AnchorLine {
    /// The line and the text.
    pub open spec fn view(&self) -> (int, Seq<char>) {
        (self.line as int, self.spec@)
    }
}

/// The lines by content.
pub open spec fn anchor_lines(v: Seq<AnchorLine>) -> Seq<(int, Seq<char>)> {
    v.map_values(|l: AnchorLine| l@)
}

/// The specifications that an anchors file lists, one a line, each with its line.
pub open spec fn specs_in(lines: Seq<Seq<char>>) -> Seq<(int, Seq<char>)>
    decreases lines.len(),
{
    if lines.len() == 0 {
        Seq::empty()
    } else if is_skipped(lines.last()) {
        specs_in(lines.drop_last())
    } else {
        specs_in(lines.drop_last()).push((lines.len() as int, scan::trimmed(lines.last())))
    }
}

/// The specifications of a file with this text.
pub open spec fn specs_of_file(text: Seq<char>) -> Seq<(int, Seq<char>)> {
    specs_in(scan::split(text, '\n'))
}

/// The specifications without their lines.
pub open spec fn spec_texts(listed: Seq<(int, Seq<char>)>) -> Seq<Seq<char>> {
    listed.map_values(|l: (int, Seq<char>)| l.1)
}

/// The specifications that an anchors file lists, one a line, each with its line. Blank
/// lines and `#` comments are skipped.
pub fn anchor_file_specs(text: &str) -> (out: Vec<AnchorLine>)
    ensures
        anchor_lines(out@) == specs_of_file(text@),
{
    let lines: Vec<String> = split_text(text, '\n');
    let ghost all = scan::split(text@, '\n');
    let mut out: Vec<AnchorLine> = Vec::new();
    let mut i: usize = 0;
    assert(all.take(0) =~= Seq::empty());
    assert(anchor_lines(out@) =~= Seq::empty());
    while i < lines.len()
        invariant
            i <= lines@.len(),
            all == scan::texts(lines@),
            anchor_lines(out@) == specs_in(all.take(i as int)),
        decreases lines@.len() - i,
    {
        let line: &str = trim(lines[i].as_str());
        let ghost sofar = anchor_lines(out@);
        let total: usize = lines.len();
        proof {
            assert(all.take(i + 1).drop_last() =~= all.take(i as int));
            assert(all.take(i + 1).last() == lines@[i as int]@);
        }
        i = i + 1;
        if line.unicode_len() > 0 && line.get_char(0) != '#' {
            out.push(AnchorLine { line: i, spec: line.to_owned() });
            assert(anchor_lines(out@) =~= sofar.push((i as int, line@)));
        }
    }
    assert(all.take(i as int) =~= all);
    out
}

/// The set after each of some specifications was merged in turn, or `None` where one
/// could not be.
pub open spec fn merged_all(
    nodes: Seq<(Seq<u8>, Seq<Seq<char>>)>,
    specs: Seq<Seq<char>>,
    parsed: Seq<Option<Seq<char>>>,
) -> Option<Seq<(Seq<u8>, Seq<Seq<char>>)>>
    decreases specs.len(),
{
    if specs.len() == 0 {
        Some(nodes)
    } else {
        let last = specs.len() - 1;
        match merged_all(nodes, specs.drop_last(), parsed) {
            None => None,
            Some(before) => if spec_fault(specs[last], address_at(parsed, last)) is Some
                || anchor_full(before, spec_id(specs[last]), address_at(parsed, last)->Some_0) {
                None
            } else {
                Some(with_anchor(before, spec_id(specs[last]), address_at(parsed, last)->Some_0))
            },
        }
    }
}

/// What the `k`th address text parses to.
pub open spec fn address_at(parsed: Seq<Option<Seq<char>>>, k: int) -> Option<Seq<char>> {
    if 0 <= k < parsed.len() {
        parsed[k]
    } else {
        None
    }
}

/// Optional texts by content.
pub open spec fn opt_texts(v: Seq<Option<String>>) -> Seq<Option<Seq<char>>> {
    Seq::new(v.len(), |i: int| opt_text(v[i]))
}

pub(crate) fn parsed_at(parsed: &Vec<Option<String>>, k: usize) -> (r: Option<String>)
    ensures
        opt_text(r) == address_at(opt_texts(parsed@), k as int),
{
    if k < parsed.len() {
        match &parsed[k] {
            Some(a) => Some(a.clone()),
            None => None,
        }
    } else {
        None
    }
}

proof fn lemma_merge_stuck(
    nodes: Seq<(Seq<u8>, Seq<Seq<char>>)>,
    specs: Seq<Seq<char>>,
    parsed: Seq<Option<Seq<char>>>,
    n: int,
)
    requires
        0 <= n <= specs.len(),
        merged_all(nodes, specs.take(n), parsed) is None,
    ensures
        merged_all(nodes, specs, parsed) is None,
    decreases specs.len() - n,
{
    if n < specs.len() {
        assert(specs.take(n + 1).drop_last() =~= specs.take(n));
        lemma_merge_stuck(nodes, specs, parsed, n + 1);
    } else {
        assert(specs.take(n) =~= specs);
    }
}

/// Merges the anchors that a profile's anchors file lists into a set, in order. `file` is
/// the text of the file, `None` where there is none: most profiles have none, and that is
/// no error. `parsed` is what the address of each specification that [`anchor_file_specs`]
/// lists parses to.
///
/// A line that cannot be merged is an error that names it, never passed over; the anchors
/// before it stay merged.
pub fn merge_anchors_file(
    set: &mut BootstrapSet,
    file: Option<&str>,
    parsed: &Vec<Option<String>>,
) -> (r: Result<(), Error>)
    ensures
        match file {
            None => r is Ok && *final(set) == *old(set),
            Some(text) => {
                let listed = specs_of_file(text@);
                let before = bootstrap::nodes_view(old(set).nodes@);
                let after = bootstrap::nodes_view(final(set).nodes@);
                let whole = merged_all(before, spec_texts(listed), opt_texts(parsed@));
                match r {
                    Ok(_) => whole == Some(after),
                    Err(e) => {
                        &&& whole is None
                        &&& exists|n: int|
                            0 <= n < listed.len() && #[trigger] merged_all(
                                before,
                                spec_texts(listed).take(n),
                                opt_texts(parsed@),
                            ) == Some(after) && merged_all(
                                before,
                                spec_texts(listed).take(n + 1),
                                opt_texts(parsed@),
                            ) is None && listed[n].0 <= usize::MAX && e
                                == Error::MalformedAnchorLine(listed[n].0 as usize)
                    },
                }
            },
        },
{
    let text: &str = match file {
        Some(t) => t,
        None => {
            return Ok(());
        },
    };
    let specs: Vec<AnchorLine> = anchor_file_specs(text);
    let ghost before = bootstrap::nodes_view(set.nodes@);
    let ghost listed = specs_of_file(text@);
    let ghost ss = spec_texts(listed);
    let ghost ps = opt_texts(parsed@);
    let mut i: usize = 0;
    assert(ss.take(0) =~= Seq::empty());
    while i < specs.len()
        invariant
            i <= specs@.len(),
            listed == anchor_lines(specs@),
            ss == spec_texts(listed),
            ps == opt_texts(parsed@),
            merged_all(before, ss.take(i as int), ps) == Some(bootstrap::nodes_view(set.nodes@)),
            before == bootstrap::nodes_view(old(set).nodes@),
            file == Some(text),
            listed == specs_of_file(text@),
        decreases specs@.len() - i,
    {
        let addr: Option<String> = parsed_at(parsed, i);
        proof {
            assert(ss.take(i + 1).drop_last() =~= ss.take(i as int));
            assert(listed[i as int] == specs@[i as int]@);
            assert(ss.take(i + 1)[i as int] == specs@[i as int].spec@);
        }
        match merge_anchor_spec(set, specs[i].spec.as_str(), addr) {
            Ok(_) => {},
            Err(_) => {
                proof {
                    assert(merged_all(before, ss.take(i + 1), ps) is None);
                    lemma_merge_stuck(before, ss, ps, i + 1);
                    assert(ss.take(i as int).len() == i);
                }
                return Err(Error::MalformedAnchorLine(specs[i].line));
            },
        }
        i = i + 1;
    }
    assert(ss.take(i as int) =~= ss);
    Ok(())
}

/// An anchor as [`parse_anchor_spec`] reads it, with one address.
pub open spec fn spec_of(id: Seq<u8>, addr: Seq<char>) -> Seq<char> {
    b32::b32_of(id).push('@') + addr
}

/// An anchor the way [`parse_anchor_spec`] reads it, one text per address.
pub open spec fn specs_of(node: BootstrapNode) -> Seq<Seq<char>> {
    Seq::new(node.endpoints@.len(), |i: int| spec_of(node.id@, node.endpoints@[i]@))
}

/// Renders an anchor the way [`parse_anchor_spec`] reads it, one text per address.
#[must_use]
pub fn anchor_specs(node: &BootstrapNode) -> (out: Vec<String>)
    ensures
        scan::texts(out@) == specs_of(*node),
{
    let mut out: Vec<String> = Vec::new();
    let mut i: usize = 0;
    while i < node.endpoints.len()
        invariant
            i <= node.endpoints@.len(),
            out@.len() == i,
            forall|j: int|
                0 <= j < i ==> (#[trigger] out@[j])@ == spec_of(node.id@, node.endpoints@[j]@),
        decreases node.endpoints@.len() - i,
    {
        let mut s: String = b32_encode(&node.id);
        proof {
            reveal_strlit("@");
        }
        s.append("@");
        s.append(node.endpoints[i].as_str());
        assert(s@ =~= spec_of(node.id@, node.endpoints@[i as int]@));
        out.push(s);
        i = i + 1;
    }
    assert(scan::texts(out@) =~= specs_of(*node));
    out
}

/// A rendered anchor is read back: it names the identity, and its address text is the
/// address, where that has no white space around it.
pub proof fn law_anchor_spec_read_back(id: Seq<u8>, addr: Seq<char>)
    requires
        id.len() == 32,
        scan::trimmed(addr) == addr,
    ensures
        spec_address(spec_of(id, addr)) == addr,
        spec_fault(spec_of(id, addr), Some(addr)) is None,
        spec_id(spec_of(id, addr)) == id,
{
    let t = b32::b32_of(id);
    b32::law_b32_read_back(id);
    lemma_b32_chars(id, '@');
    scan::lemma_once(t, '@', addr);
    assert(b32::digit_value(t[0]) is Some);
    assert(b32::digit_value(t[51]) is Some);
    assert(t.last() == t[51]);
    assert(scan::trim_start(t) == t);
    assert(scan::trim_end(t) == t);
}

/// Rendering an anchor loses nothing: there is one text for each of its addresses, and each
/// is read back as the anchor with that one address, where addresses have no white space
/// around them. `parsed` is what the address of the text parses to, which is the address.
pub proof fn law_anchor_specs_read_back(node: BootstrapNode, i: int, parsed: Option<Seq<char>>)
    requires
        0 <= i < node.endpoints@.len(),
        scan::trimmed(node.endpoints@[i]@) == node.endpoints@[i]@,
        parsed == Some(spec_address(specs_of(node)[i])),
    ensures
        specs_of(node).len() == node.endpoints@.len(),
        spec_fault(specs_of(node)[i], parsed) is None,
        (spec_id(specs_of(node)[i]), seq![parsed->Some_0]) == (
            node.id@,
            seq![node.endpoints@[i]@],
        ),
{
    law_anchor_spec_read_back(node.id@, node.endpoints@[i]@);
}

} // verus!
