//! What holds of links, hostnames and anchors files: how text is taken apart, and what
//! becomes of each anchor that a file lists.

use vstd::prelude::*;

use crate::link::invite::{self, LinkRead};
use crate::link::{self, b32, scan};

verus! {

// ---- white space -------------------------------------------------------------

/// Whether a text is white space throughout.
pub open spec fn all_white(s: Seq<char>) -> bool {
    forall|i: int| 0 <= i < s.len() ==> scan::is_white(#[trigger] s[i])
}

/// Of ASCII, the space and what stands from the tab to the carriage return is white space,
/// and nothing else.
pub proof fn law_ascii_white_space(c: char)
    requires
        (c as int) < 128,
    ensures
        scan::is_white(c) <==> (c == ' ' || 9 <= c as int <= 13),
{
}

/// The white space in front is taken off, all of it and nothing else.
pub proof fn law_front_is_trimmed(s: Seq<char>)
    ensures
        ({
            let r = scan::trim_start(s);
            &&& r.len() <= s.len()
            &&& r == s.skip(s.len() - r.len())
            &&& all_white(s.take(s.len() - r.len()))
            &&& r.len() > 0 ==> !scan::is_white(r[0])
        }),
    decreases s.len(),
{
    if s.len() > 0 && scan::is_white(s[0]) {
        let rest = s.drop_first();
        law_front_is_trimmed(rest);
        let r = scan::trim_start(s);
        assert(r =~= s.skip(s.len() - r.len()));
        assert forall|i: int| 0 <= i < s.len() - r.len() implies scan::is_white(
            #[trigger] s.take(s.len() - r.len())[i],
        ) by {
            if i > 0 {
                assert(rest.take(rest.len() - r.len())[i - 1] == s[i]);
            }
        }
    } else {
        assert(s =~= s.skip(0));
    }
}

/// The white space behind is taken off, all of it and nothing else.
pub proof fn law_back_is_trimmed(s: Seq<char>)
    ensures
        ({
            let r = scan::trim_end(s);
            &&& r.len() <= s.len()
            &&& r == s.take(r.len() as int)
            &&& all_white(s.skip(r.len() as int))
            &&& r.len() > 0 ==> !scan::is_white(r.last())
        }),
    decreases s.len(),
{
    if s.len() > 0 && scan::is_white(s.last()) {
        let rest = s.drop_last();
        law_back_is_trimmed(rest);
        let r = scan::trim_end(s);
        assert(r =~= s.take(r.len() as int));
        assert forall|i: int| 0 <= i < s.len() - r.len() implies scan::is_white(
            #[trigger] s.skip(r.len() as int)[i],
        ) by {
            if i < rest.len() - r.len() {
                assert(rest.skip(r.len() as int)[i] == s[r.len() + i]);
            }
        }
    } else {
        assert(s =~= s.take(s.len() as int));
    }
}

/// White space around a text makes no difference, and a text that neither begins nor ends
/// with any is left as it is.
pub proof fn law_white_space_around_is_dropped(a: Seq<char>, s: Seq<char>, b: Seq<char>)
    requires
        all_white(a),
        all_white(b),
        s.len() > 0,
        !scan::is_white(s[0]),
        !scan::is_white(s.last()),
    ensures
        scan::trimmed(a + s + b) == s,
{
    let t = a + s + b;
    law_front_is_trimmed(t);
    let r = scan::trim_start(t);
    let n = t.len() - r.len();
    assert(n == a.len()) by {
        if n < a.len() {
            assert(r[0] == t[n]);
            assert(t[n] == a[n]);
        }
        if n > a.len() {
            assert(t.take(n)[a.len() as int] == s[0]);
        }
    }
    assert(r =~= s + b);
    law_back_is_trimmed(r);
    let e = scan::trim_end(r);
    assert(e.len() == s.len()) by {
        if e.len() > s.len() {
            assert(e.last() == r[e.len() - 1]);
            assert(r[e.len() - 1] == b[e.len() - 1 - s.len()]);
        }
        if e.len() < s.len() {
            assert(r.skip(e.len() as int)[s.len() - 1 - e.len()] == s.last());
        }
    }
    assert(e =~= s);
}

/// A text of white space alone, or none, has nothing left.
pub proof fn law_blank_is_nothing(s: Seq<char>)
    ensures
        scan::trimmed(s).len() == 0 <==> all_white(s),
{
    law_front_is_trimmed(s);
    let r = scan::trim_start(s);
    law_back_is_trimmed(r);
    let n = s.len() - r.len();
    if all_white(s) && r.len() > 0 {
        assert(r[0] == s[n]);
    }
    if scan::trimmed(s).len() == 0 {
        if r.len() > 0 {
            assert(r.skip(0)[0] == r[0]);
        }
        assert(r.len() == 0);
        assert(s.take(n) =~= s);
    }
}

/// The dots that a text ends in are taken off, all of them and nothing else.
pub proof fn law_dots_are_trimmed(s: Seq<char>)
    ensures
        ({
            let r = scan::trim_dots(s);
            &&& r.len() <= s.len()
            &&& r == s.take(r.len() as int)
            &&& forall|i: int| r.len() <= i < s.len() ==> #[trigger] s[i] == '.'
            &&& r.len() > 0 ==> r.last() != '.'
        }),
    decreases s.len(),
{
    if s.len() > 0 && s.last() == '.' {
        let rest = s.drop_last();
        law_dots_are_trimmed(rest);
        let r = scan::trim_dots(s);
        assert(r =~= s.take(r.len() as int));
        assert forall|i: int| r.len() <= i < s.len() implies #[trigger] s[i] == '.' by {
            if i < rest.len() {
                assert(rest[i] == s[i]);
            }
        }
    } else {
        assert(s =~= s.take(s.len() as int));
    }
}

// ---- taking text apart -------------------------------------------------------

/// A text is parted exactly if it has the character, at the first one, and the parts are
/// all of it.
pub proof fn law_parted_at_the_first(s: Seq<char>, c: char)
    ensures
        scan::once(s, c) is Some <==> s.contains(c),
        scan::once(s, c) is Some ==> {
            let (a, b) = scan::once(s, c)->Some_0;
            a.push(c) + b == s && !a.contains(c)
        },
{
    scan::lemma_first_at(s, c, 0);
    let i = scan::first_at(s, c);
    if s.contains(c) {
        scan::lemma_first_at(s, c, s.index_of(c));
    }
    if i < s.len() {
        let a = s.subrange(0, i);
        let b = s.subrange(i + 1, s.len() as int);
        assert(a.push(c) + b =~= s);
        if a.contains(c) {
            let j = a.index_of(c);
            scan::lemma_first_at(s, c, j);
        }
        assert(s[i] == c);
    }
}

/// Parts with a separator between any two.
pub open spec fn joined(parts: Seq<Seq<char>>, sep: char) -> Seq<char>
    decreases parts.len(),
{
    if parts.len() == 0 {
        Seq::empty()
    } else if parts.len() == 1 {
        parts[0]
    } else {
        joined(parts.drop_last(), sep).push(sep) + parts.last()
    }
}

/// The parts of a text hold no separator, and put together again they are the text.
pub proof fn law_parts_make_the_text(s: Seq<char>, sep: char)
    ensures
        scan::split(s, sep).len() > 0,
        forall|i: int|
            0 <= i < scan::split(s, sep).len() ==> !(#[trigger] scan::split(s, sep)[i]).contains(sep),
        joined(scan::split(s, sep), sep) == s,
    decreases s.len(),
{
    let parts = scan::split(s, sep);
    if s.len() == 0 {
        assert(parts[0].len() == 0);
        assert(joined(parts, sep) =~= s);
    } else {
        let front = scan::split(s.drop_last(), sep);
        law_parts_make_the_text(s.drop_last(), sep);
        let c = s.last();
        if c == sep {
            assert(parts.drop_last() =~= front);
            assert(parts.last() =~= Seq::<char>::empty());
            assert(joined(parts, sep) =~= s.drop_last().push(sep));
            assert(s.drop_last().push(sep) =~= s);
            assert forall|i: int| 0 <= i < parts.len() implies !(#[trigger] parts[i]).contains(
                sep,
            ) by {
                if i < front.len() {
                    assert(parts[i] == front[i]);
                }
            }
        } else {
            assert(parts.drop_last() =~= front.drop_last());
            assert(parts.last() == front.last().push(c));
            assert forall|i: int| 0 <= i < parts.len() implies !(#[trigger] parts[i]).contains(
                sep,
            ) by {
                if i < front.len() - 1 {
                    assert(parts[i] == front[i]);
                } else {
                    let p = front.last();
                    assert(!front[front.len() - 1].contains(sep));
                    if p.push(c).contains(sep) {
                        let k = p.push(c).index_of(sep);
                        if k < p.len() {
                            assert(p[k] == sep);
                        }
                    }
                }
            }
            if front.len() == 1 {
                assert(parts[0] == front[0].push(c));
                assert(joined(parts, sep) =~= s);
            } else {
                assert(joined(parts, sep) =~= (joined(front.drop_last(), sep).push(sep)
                    + front.last()).push(c));
                assert(joined(parts, sep) =~= s);
            }
        }
    }
}

// ---- hostnames ---------------------------------------------------------------

/// Capitals have the small letter 32 places on, and nothing else changes; so two texts that
/// differ in case alone have the suffix or both have it not.
pub proof fn law_case_does_not_matter(c: char, s: Seq<char>, t: Seq<char>)
    requires
        s.len() == t.len(),
        forall|i: int| 0 <= i < s.len() ==> b32::lower(#[trigger] s[i]) == b32::lower(t[i]),
    ensures
        'A' <= c <= 'Z' ==> b32::lower(c) as int == c as int + 32,
        !('A' <= c <= 'Z') ==> b32::lower(c) == c,
        link::has_tld(s) == link::has_tld(t),
{
    if s.len() >= 4 {
        let n = s.len() as int;
        assert(b32::lower(s[n - 4]) == b32::lower(t[n - 4]));
        assert(b32::lower(s[n - 3]) == b32::lower(t[n - 3]));
        assert(b32::lower(s[n - 2]) == b32::lower(t[n - 2]));
        assert(b32::lower(s[n - 1]) == b32::lower(t[n - 1]));
    }
}

/// A hostname is one exactly if in front of the suffix stands one label that reads as a
/// fingerprint; dots and white space behind it make no difference.
pub proof fn law_hostname_has_one_label(label: Seq<char>, dots: Seq<char>, white: Seq<char>)
    requires
        label.len() > 0,
        !scan::is_white(label[0]),
        forall|i: int| 0 <= i < dots.len() ==> #[trigger] dots[i] == '.',
        all_white(white),
    ensures
        link::host_fault(label + ".vox"@ + dots + white) is None <==> (!label.contains('.')
            && b32::is_b32(label)),
        link::label_of(link::host_read(label + ".vox"@ + dots + white)) == label,
{
    reveal_strlit(".vox");
    let h = label + ".vox"@;
    let s = h + dots;
    assert(h.last() == 'x');
    assert(s.last() == 'x' || s.last() == '.') by {
        if dots.len() > 0 {
            assert(s.last() == dots[dots.len() - 1]);
        }
    }
    assert(!scan::is_white(s.last()));
    assert(Seq::<char>::empty() + s + white =~= label + ".vox"@ + dots + white);
    law_white_space_around_is_dropped(Seq::empty(), s, white);
    law_dots_are_trimmed(s);
    let r = scan::trim_dots(s);
    assert(r.len() == h.len()) by {
        if r.len() > h.len() {
            assert(r.last() == dots[r.len() - 1 - h.len()]);
        }
        if r.len() < h.len() {
            assert(s[h.len() - 1] == 'x');
        }
    }
    assert(r =~= h);
    assert(link::label_of(r) =~= label);
}

// ---- invite links ------------------------------------------------------------

/// The anchors of a link once the one that is being read is among them.
pub open spec fn closed(st: LinkRead) -> Seq<(Seq<u8>, Seq<Seq<char>>)> {
    match st.current {
        Some(node) => st.anchors.push(node),
        None => st.anchors,
    }
}

/// An `a` field begins an anchor exactly if the one before it has an address, there is a
/// place for one more, its value reads as a fingerprint, and no anchor before it has that.
/// The anchors so far stay as they are.
pub proof fn law_anchor_field_begins_an_anchor(
    st: LinkRead,
    value: Seq<char>,
    parsed: Seq<Option<Seq<char>>>,
)
    requires
        st.bad is None,
    ensures
        ({
            let r = st.on_field(seq!['a', '='] + value, parsed);
            let before = closed(st);
            &&& r.bad is None <==> {
                &&& st.current is Some ==> st.current->Some_0.1.len() > 0
                &&& before.len() < link::MAX_LINK_ANCHORS
                &&& b32::is_b32(value)
                &&& forall|i: int|
                    0 <= i < before.len() ==> (#[trigger] before[i]).0 != b32::digest_of_b32(value)
            }
            &&& r.bad is None ==> {
                &&& r.anchors == before
                &&& r.current == Some((b32::digest_of_b32(value), Seq::<Seq<char>>::empty()))
                &&& r.responder == st.responder
                &&& r.used == st.used
            }
        }),
{
    let field = seq!['a', '='] + value;
    assert(field =~= seq!['a'].push('=') + value);
    assert(!seq!['a'].contains('='));
    scan::lemma_once(seq!['a'], '=', value);
    let c = st.close();
    if c.bad is None {
        assert(c.anchors == closed(st));
        if c.names(b32::digest_of_b32(value)) {
            let i = choose|i: int|
                0 <= i < c.anchors.len() && (#[trigger] c.anchors[i]).0 == b32::digest_of_b32(
                    value,
                );
            assert(closed(st)[i].0 == b32::digest_of_b32(value));
        }
    }
}

/// A `b` field adds an address to the anchor being read, behind those that it has, exactly
/// if there is such an anchor, it has a place left, and the value parses.
pub proof fn law_address_field_adds_an_address(
    st: LinkRead,
    value: Seq<char>,
    parsed: Seq<Option<Seq<char>>>,
)
    requires
        st.bad is None,
        0 <= st.used < parsed.len(),
    ensures
        ({
            let r = st.on_field(seq!['b', '='] + value, parsed);
            &&& r.bad is None <==> {
                &&& st.current is Some
                &&& st.current->Some_0.1.len() < crate::bootstrap::MAX_ENDPOINTS
                &&& parsed[st.used] is Some
            }
            &&& r.bad is None ==> {
                &&& r.current == Some(
                    (
                        st.current->Some_0.0,
                        st.current->Some_0.1.push(parsed[st.used]->Some_0),
                    ),
                )
                &&& r.anchors == st.anchors
                &&& r.responder == st.responder
                &&& r.used == st.used + 1
            }
        }),
{
    let field = seq!['b', '='] + value;
    assert(field =~= seq!['b'].push('=') + value);
    assert(!seq!['b'].contains('='));
    scan::lemma_once(seq!['b'], '=', value);
    assert(seq!['b'][0] == 'b' && seq!['a'][0] == 'a');
}

/// An `r` field names the responder exactly if none is named and its value reads as a
/// fingerprint; it touches no anchor.
pub proof fn law_responder_field_names_the_responder(
    st: LinkRead,
    value: Seq<char>,
    parsed: Seq<Option<Seq<char>>>,
)
    requires
        st.bad is None,
    ensures
        ({
            let r = st.on_field(seq!['r', '='] + value, parsed);
            &&& r.bad is None <==> st.responder is None && b32::is_b32(value)
            &&& r.bad is None ==> {
                &&& r.responder == Some(b32::digest_of_b32(value))
                &&& r.anchors == st.anchors
                &&& r.current == st.current
                &&& r.used == st.used
            }
        }),
{
    let field = seq!['r', '='] + value;
    assert(field =~= seq!['r'].push('=') + value);
    assert(!seq!['r'].contains('='));
    scan::lemma_once(seq!['r'], '=', value);
    assert(seq!['r'][0] == 'r' && seq!['a'][0] == 'a' && seq!['b'][0] == 'b');
}

/// A field of any other key, or of none, is an error; an empty one is nothing; and behind
/// an error nothing is read.
pub proof fn law_unknown_fields_are_errors(
    st: LinkRead,
    key: Seq<char>,
    value: Seq<char>,
    bare: Seq<char>,
    parsed: Seq<Option<Seq<char>>>,
)
    requires
        !key.contains('='),
        key != seq!['a'],
        key != seq!['b'],
        key != seq!['r'],
        !bare.contains('='),
    ensures
        st.bad is None ==> st.on_field(key.push('=') + value, parsed).bad is Some,
        st.bad is None && bare.len() > 0 ==> st.on_field(bare, parsed).bad is Some,
        st.on_field(Seq::empty(), parsed) == st,
        st.bad is Some ==> st.on_field(bare, parsed) == st && st.on_field(
            key.push('=') + value,
            parsed,
        ) == st,
{
    scan::lemma_once(key, '=', value);
    law_parted_at_the_first(bare, '=');
}

/// A text is a link exactly if it begins with the scheme, what follows up to the question
/// mark reads as a room, and what stands behind that reads without an error and names an
/// anchor; the two parts are all of it.
pub proof fn law_link_is_read_exactly(text: Seq<char>, parsed: Seq<Option<Seq<char>>>)
    ensures
        invite::link_fault(text, parsed) is None <==> {
            &&& "vox://"@.is_prefix_of(text)
            &&& b32::is_b32(invite::id_part(text))
            &&& invite::link_read(text, parsed).bad is None
            &&& invite::link_read(text, parsed).anchors.len() > 0
        },
        !invite::id_part(text).contains('?'),
        "vox://"@.is_prefix_of(text) ==> text == "vox://"@ + invite::id_part(text) || text
            == ("vox://"@ + invite::id_part(text)).push('?') + invite::query_part(text),
{
    let rest = invite::behind_scheme(text);
    law_parted_at_the_first(rest, '?');
    if "vox://"@.is_prefix_of(text) {
        assert(text =~= "vox://"@ + rest);
        match scan::once(rest, '?') {
            Some((a, b)) => {
                assert(text =~= ("vox://"@ + a).push('?') + b);
            },
            None => {},
        }
    }
}

// ---- anchors -----------------------------------------------------------------

/// An anchor specification is one exactly if it has an `@`, what stands in front of the
/// first reads as a fingerprint and what stands behind it parses as an address; white space
/// around either makes no difference.
pub proof fn law_anchor_spec_exactly(
    id: Seq<char>,
    addr: Seq<char>,
    parsed: Option<Seq<char>>,
    text: Seq<char>,
)
    requires
        !id.contains('@'),
    ensures
        link::spec_fault(id.push('@') + addr, parsed) is None <==> b32::is_b32(scan::trimmed(id))
            && parsed is Some,
        link::spec_address(id.push('@') + addr) == scan::trimmed(addr),
        link::spec_id(id.push('@') + addr) == b32::digest_of_b32(scan::trimmed(id)),
        !text.contains('@') ==> link::spec_fault(text, parsed) is Some,
{
    scan::lemma_once(id, '@', addr);
    law_parted_at_the_first(text, '@');
}

/// A node is found in a set exactly if the set names it, and where it first does.
pub proof fn law_node_is_found(nodes: Seq<(Seq<u8>, Seq<Seq<char>>)>, id: Seq<u8>)
    ensures
        ({
            let i = link::node_at(nodes, id);
            &&& 0 <= i <= nodes.len()
            &&& i < nodes.len() ==> nodes[i].0 == id
            &&& forall|j: int| 0 <= j < i ==> (#[trigger] nodes[j]).0 != id
        }),
    decreases nodes.len(),
{
    if nodes.len() > 0 && nodes[0].0 != id {
        let rest = nodes.drop_first();
        law_node_is_found(rest, id);
        assert forall|j: int| 0 <= j < link::node_at(nodes, id) implies (#[trigger] nodes[j]).0
            != id by {
            if j > 0 {
                assert(rest[j - 1] == nodes[j]);
            }
        }
    }
}

/// Whether a set lists an address for an identity.
pub open spec fn lists(
    nodes: Seq<(Seq<u8>, Seq<Seq<char>>)>,
    id: Seq<u8>,
    addr: Seq<char>,
) -> bool {
    exists|i: int| 0 <= i < nodes.len() && (#[trigger] nodes[i]).0 == id && nodes[i].1.contains(addr)
}

/// Adding an anchor's address keeps every address that the set listed, of that anchor and
/// of all others, lists the new one behind them, and lists nothing else; every node stays in
/// its place, and a node is added, at the end, exactly if the set did not name it.
pub proof fn law_anchor_is_added(
    nodes: Seq<(Seq<u8>, Seq<Seq<char>>)>,
    id: Seq<u8>,
    addr: Seq<char>,
    who: Seq<u8>,
    at: Seq<char>,
)
    ensures
        ({
            let r = link::with_anchor(nodes, id, addr);
            &&& lists(r, who, at) <==> lists(nodes, who, at) || (who == id && at == addr)
            &&& nodes.len() <= r.len() <= nodes.len() + 1
            &&& r.len() == nodes.len() <==> exists|j: int|
                0 <= j < nodes.len() && (#[trigger] nodes[j]).0 == id
            &&& forall|j: int|
                0 <= j < nodes.len() ==> (#[trigger] r[j]).0 == nodes[j].0 && (nodes[j].0 != id
                    ==> r[j] == nodes[j]) && (r[j].1 == nodes[j].1 || r[j].1 == nodes[j].1.push(
                    addr,
                ))
            &&& r.len() > nodes.len() ==> r.last() == (id, seq![addr])
            &&& lists(nodes, id, addr) && link::node_at(nodes, id) < nodes.len()
                && nodes[link::node_at(nodes, id)].1.contains(addr) ==> r == nodes
        }),
{
    law_node_is_found(nodes, id);
    let i = link::node_at(nodes, id);
    let r = link::with_anchor(nodes, id, addr);
    if i < nodes.len() {
        let old_list = nodes[i].1;
        let new_list = link::with_address(old_list, addr);
        assert(new_list.contains(addr)) by {
            if !old_list.contains(addr) {
                assert(new_list[old_list.len() as int] == addr);
            }
        }
        assert forall|x: Seq<char>| old_list.contains(x) implies #[trigger] new_list.contains(x) by {
            let k = old_list.index_of(x);
            assert(new_list[k] == x);
        }
        assert forall|x: Seq<char>| #[trigger] new_list.contains(x) implies old_list.contains(x)
            || x == addr by {
            let k = new_list.index_of(x);
            if k < old_list.len() {
                assert(old_list[k] == x);
            }
        }
        if lists(r, who, at) {
            let k = choose|k: int|
                0 <= k < r.len() && (#[trigger] r[k]).0 == who && r[k].1.contains(at);
            if k != i {
                assert(nodes[k] == r[k]);
            } else {
                assert(r[i].1 == new_list);
                if old_list.contains(at) {
                    assert(nodes[i].0 == who);
                }
            }
        }
        if lists(nodes, who, at) {
            let k = choose|k: int|
                0 <= k < nodes.len() && (#[trigger] nodes[k]).0 == who && nodes[k].1.contains(at);
            assert(r[k].0 == who);
            if k == i {
                assert(r[k].1 == new_list);
            }
            assert(r[k].1.contains(at));
        }
        assert(r[i].0 == id && r[i].1.contains(addr));
        if old_list.contains(addr) {
            assert(r =~= nodes);
        }
        assert(nodes[i].0 == id);
    } else {
        assert(r[nodes.len() as int] == (id, seq![addr]));
        assert(seq![addr][0] == addr);
        assert(r[nodes.len() as int].1.contains(addr));
        if lists(r, who, at) {
            let k = choose|k: int|
                0 <= k < r.len() && (#[trigger] r[k]).0 == who && r[k].1.contains(at);
            if k < nodes.len() {
                assert(nodes[k] == r[k]);
            }
        }
        if lists(nodes, who, at) {
            let k = choose|k: int|
                0 <= k < nodes.len() && (#[trigger] nodes[k]).0 == who && nodes[k].1.contains(at);
            assert(r[k] == nodes[k]);
        }
    }
}

/// An address is one too many exactly if the anchor has as many as it may and it is not one
/// of them.
pub proof fn law_anchor_is_full(
    nodes: Seq<(Seq<u8>, Seq<Seq<char>>)>,
    id: Seq<u8>,
    addr: Seq<char>,
)
    requires
        forall|i: int|
            0 <= i < nodes.len() ==> (#[trigger] nodes[i]).1.len()
                <= crate::bootstrap::MAX_ENDPOINTS,
    ensures
        link::anchor_full(nodes, id, addr) <==> {
            let i = link::node_at(nodes, id);
            &&& i < nodes.len()
            &&& nodes[i].1.len() == crate::bootstrap::MAX_ENDPOINTS
            &&& !nodes[i].1.contains(addr)
        },
{
    law_node_is_found(nodes, id);
}

/// A file's anchors are merged exactly if each of its specifications is one and finds a
/// place; each is listed then, with what the set listed before, and nothing besides.
pub proof fn law_every_anchor_of_a_file_is_merged(
    nodes: Seq<(Seq<u8>, Seq<Seq<char>>)>,
    specs: Seq<Seq<char>>,
    parsed: Seq<Option<Seq<char>>>,
    who: Seq<u8>,
    at: Seq<char>,
)
    requires
        parsed.len() == specs.len(),
        link::merged_all(nodes, specs, parsed) is Some,
    ensures
        forall|k: int|
            0 <= k < specs.len() ==> link::spec_fault(#[trigger] specs[k], parsed[k]) is None,
        lists(link::merged_all(nodes, specs, parsed)->Some_0, who, at) <==> lists(nodes, who, at)
            || exists|k: int|
            0 <= k < specs.len() && link::spec_id(#[trigger] specs[k]) == who && parsed[k] == Some(
                at,
            ),
{
    lemma_merged(nodes, specs, parsed, who, at);
    assert forall|k: int| 0 <= k < specs.len() implies link::spec_fault(
        #[trigger] specs[k],
        parsed[k],
    ) is None by {
        assert(link::address_at(parsed, k) == parsed[k]);
        assert(link::spec_fault(specs[k], link::address_at(parsed, k)) is None);
    }
    if exists|k: int|
        0 <= k < specs.len() && link::spec_id(#[trigger] specs[k]) == who && parsed[k] == Some(
            at,
        ) {
        let k = choose|k: int|
            0 <= k < specs.len() && link::spec_id(#[trigger] specs[k]) == who && parsed[k] == Some(
                at,
            );
        assert(link::address_at(parsed, k) == Some(at));
        assert(link::spec_id(specs[k]) == who);
    }
    if exists|k: int|
        0 <= k < specs.len() && link::spec_id(#[trigger] specs[k]) == who && link::address_at(
            parsed,
            k,
        ) == Some(at) {
        let k = choose|k: int|
            0 <= k < specs.len() && link::spec_id(#[trigger] specs[k]) == who && link::address_at(
                parsed,
                k,
            ) == Some(at);
        assert(parsed[k] == Some(at));
        assert(link::spec_id(specs[k]) == who);
    }
}

proof fn lemma_merged(
    nodes: Seq<(Seq<u8>, Seq<Seq<char>>)>,
    specs: Seq<Seq<char>>,
    parsed: Seq<Option<Seq<char>>>,
    who: Seq<u8>,
    at: Seq<char>,
)
    requires
        link::merged_all(nodes, specs, parsed) is Some,
    ensures
        forall|k: int|
            0 <= k < specs.len() ==> link::spec_fault(
                #[trigger] specs[k],
                link::address_at(parsed, k),
            ) is None,
        lists(link::merged_all(nodes, specs, parsed)->Some_0, who, at) <==> lists(nodes, who, at)
            || exists|k: int|
            0 <= k < specs.len() && link::spec_id(#[trigger] specs[k]) == who && link::address_at(
                parsed,
                k,
            ) == Some(at),
    decreases specs.len(),
{
    if specs.len() > 0 {
        let front = specs.drop_last();
        let last = specs.len() - 1;
        lemma_merged(nodes, front, parsed, who, at);
        let before = link::merged_all(nodes, front, parsed)->Some_0;
        let addr = link::address_at(parsed, last)->Some_0;
        assert(link::address_at(parsed, last) is Some) by {
            assert(link::spec_fault(specs[last], link::address_at(parsed, last)) is None);
        }
        law_anchor_is_added(before, link::spec_id(specs[last]), addr, who, at);
        assert forall|k: int| 0 <= k < specs.len() implies link::spec_fault(
            #[trigger] specs[k],
            link::address_at(parsed, k),
        ) is None by {
            if k < last {
                assert(front[k] == specs[k]);
            }
        }
        if exists|k: int|
            0 <= k < front.len() && link::spec_id(#[trigger] front[k]) == who && link::address_at(
                parsed,
                k,
            ) == Some(at) {
            let k = choose|k: int|
                0 <= k < front.len() && link::spec_id(#[trigger] front[k]) == who
                    && link::address_at(parsed, k) == Some(at);
            assert(specs[k] == front[k]);
        }
        if exists|k: int|
            0 <= k < specs.len() && link::spec_id(#[trigger] specs[k]) == who && link::address_at(
                parsed,
                k,
            ) == Some(at) {
            let k = choose|k: int|
                0 <= k < specs.len() && link::spec_id(#[trigger] specs[k]) == who
                    && link::address_at(parsed, k) == Some(at);
            if k < last {
                assert(front[k] == specs[k]);
            }
        }
        if link::spec_id(specs[last]) == who && addr == at {
            assert(link::spec_id(specs[last]) == who && link::address_at(parsed, last) == Some(at));
        }
    }
}

/// A file with a line that is no anchor specification, or with an anchor that finds no
/// place, is not merged whole, whatever else it lists; an empty one changes nothing.
pub proof fn law_bad_anchor_is_never_passed_over(
    nodes: Seq<(Seq<u8>, Seq<Seq<char>>)>,
    specs: Seq<Seq<char>>,
    parsed: Seq<Option<Seq<char>>>,
    k: int,
)
    requires
        parsed.len() == specs.len(),
        0 <= k < specs.len(),
        link::spec_fault(specs[k], parsed[k]) is Some,
    ensures
        link::merged_all(nodes, specs, parsed) is None,
        link::merged_all(nodes, Seq::empty(), parsed) == Some(nodes),
{
    if link::merged_all(nodes, specs, parsed) is Some {
        law_every_anchor_of_a_file_is_merged(nodes, specs, parsed, Seq::empty(), Seq::empty());
        assert(link::spec_fault(specs[k], parsed[k]) is None);
    }
}

/// A line is skipped exactly if it is blank or its first character that is no white space
/// is the comment sign.
pub proof fn law_blank_lines_and_comments_are_skipped(line: Seq<char>, n: int)
    requires
        0 <= n <= line.len(),
        all_white(line.take(n)),
        n < line.len() ==> !scan::is_white(line[n]),
    ensures
        link::is_skipped(line) <==> n == line.len() || line[n] == '#',
{
    law_blank_is_nothing(line);
    law_front_is_trimmed(line);
    let r = scan::trim_start(line);
    let m = line.len() - r.len();
    if n < line.len() {
        assert(m == n) by {
            if m < n {
                assert(r[0] == line[m]);
                assert(line.take(n)[m] == line[m]);
            }
            if n < m {
                assert(line.take(m)[n] == line[n]);
            }
        }
        assert(r[0] == line[n]);
        law_back_is_trimmed(r);
        let e = scan::trim_end(r);
        assert(e.len() > 0) by {
            if e.len() == 0 {
                assert(r.skip(0)[0] == r[0]);
            }
        }
        assert(e[0] == r[0]);
    } else {
        assert(line.take(n) =~= line);
    }
}

/// Every line of a file that is not skipped is listed, under its own number and without the
/// white space around it, and nothing else is; the lines keep their order.
pub proof fn law_every_line_is_listed(lines: Seq<Seq<char>>, n: int, text: Seq<char>)
    ensures
        link::specs_in(lines).contains((n, text)) <==> {
            &&& 1 <= n <= lines.len()
            &&& !link::is_skipped(lines[n - 1])
            &&& text == scan::trimmed(lines[n - 1])
        },
        forall|i: int, j: int|
            0 <= i < j < link::specs_in(lines).len() ==> (#[trigger] link::specs_in(lines)[i]).0 < (
            #[trigger] link::specs_in(lines)[j]).0,
        forall|i: int|
            0 <= i < link::specs_in(lines).len() ==> 1 <= (#[trigger] link::specs_in(lines)[i]).0
                <= lines.len(),
    decreases lines.len(),
{
    if lines.len() > 0 {
        let front = lines.drop_last();
        law_every_line_is_listed(front, n, text);
        let got = link::specs_in(front);
        let all = link::specs_in(lines);
        if !link::is_skipped(lines.last()) {
            let x = (lines.len() as int, scan::trimmed(lines.last()));
            assert(all == got.push(x));
            assert(all[got.len() as int] == x);
            if got.contains((n, text)) {
                let k = got.index_of((n, text));
                assert(all[k] == (n, text));
            }
            if all.contains((n, text)) && (n, text) != x {
                let k = all.index_of((n, text));
                assert(got[k] == (n, text));
            }
            if n == lines.len() {
                if got.contains((n, text)) {
                    let k = got.index_of((n, text));
                    assert(got[k].0 <= front.len());
                }
            }
        }
        if 1 <= n <= front.len() {
            assert(front[n - 1] == lines[n - 1]);
        }
    }
}

/// The lines that a file is read by are its text between the line ends, each and every one.
pub proof fn law_file_is_read_by_lines(text: Seq<char>)
    ensures
        link::specs_of_file(text) == link::specs_in(scan::split(text, '\n')),
        joined(scan::split(text, '\n'), '\n') == text,
{
    law_parts_make_the_text(text, '\n');
}

} // verus!
