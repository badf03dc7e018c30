//! Ports and links as `pw-link` lists them, the parsers of its listings, and
//! searches over the parsed lists.
use vstd::prelude::*;
use crate::pwcli::{run_end, str_eq, ws_end};
use crate::text::{
    chars_of, contains_chars, contains_seq, first_index_of, find_char, has_prefix_at, is_digit,
    is_ws, lines, parse_u32_range, parse_u32_spec, scan_digits, scan_nonws, scan_ws, split_lines,
    starts_with, string_from_range, trim, trim_bounds,
};

verus! {

/// A PipeWire port as returned by pw-link.
#[derive(Debug, Clone)]
pub struct PwPort {
    pub id: u32,
    pub name: String,
    pub node_name: String,
    pub port_name: String,
}

/// Model of a [`PwPort`].
pub struct PortModel {
    pub id: u32,
    pub name: Seq<char>,
    pub node_name: Seq<char>,
    pub port_name: Seq<char>,
}

impl View for PwPort {
    type V = PortModel;

    open spec fn view(&self) -> PortModel {
        PortModel {
            id: self.id,
            name: self.name@,
            node_name: self.node_name@,
            port_name: self.port_name@,
        }
    }
}

/// A PipeWire link as returned by pw-link.
#[derive(Debug, Clone)]
pub struct PwLink {
    pub id: u32,
    pub output_port_id: u32,
    pub output_port_name: String,
    pub input_port_id: u32,
    pub input_port_name: String,
}

/// Model of a [`PwLink`].
pub struct LinkModel {
    pub id: u32,
    pub output_port_id: u32,
    pub output_port_name: Seq<char>,
    pub input_port_id: u32,
    pub input_port_name: Seq<char>,
}

impl View for PwLink {
    type V = LinkModel;

    open spec fn view(&self) -> LinkModel {
        LinkModel {
            id: self.id,
            output_port_id: self.output_port_id,
            output_port_name: self.output_port_name@,
            input_port_id: self.input_port_id,
            input_port_name: self.input_port_name@,
        }
    }
}

/// Direction for listing ports.
#[derive(Debug, Clone, Copy, PartialEq, Eq)]
pub enum PortDirection {
    Output,
    Input,
}

/// The port that `PwPort::from_full_name(id, full)` describes: node and port
/// name split at the first `:`; without `:`, the whole name is the node name.
pub open spec fn port_from_full_name(id: u32, full: Seq<char>) -> PortModel {
    let i = first_index_of(full, ':');
    if i < full.len() {
        PortModel { id, name: full, node_name: full.take(i), port_name: full.skip(i + 1) }
    } else {
        PortModel { id, name: full, node_name: full, port_name: Seq::empty() }
    }
}

impl PwPort {
    /// Parse a port from "node_name:port_name" format.
    pub fn from_full_name(id: u32, full_name: &str) -> (r: PwPort)
        ensures
            r@ == port_from_full_name(id, full_name@),
    {
        let v = chars_of(full_name);
        let pos = find_char(&v, 0, v.len(), ':');
        assert(v@.subrange(0, v@.len() as int) == v@);
        if pos < v.len() {
            let node_name = string_from_range(&v, 0, pos);
            let port_name = string_from_range(&v, pos + 1, v.len());
            assert(v@.subrange(0, pos as int) == v@.take(pos as int));
            assert(v@.subrange(pos + 1, v@.len() as int) == v@.skip(pos + 1));
            PwPort { id, name: full_name.to_owned(), node_name, port_name }
        } else {
            PwPort { id, name: full_name.to_owned(), node_name: full_name.to_owned(), port_name: String::new() }
        }
    }
}

/// A port line of `pw-link -I -o/-i`: `^\s*(\d+)\s+(.+)$`, giving the id
/// (0 when it does not fit a `u32`) and the trimmed name.
pub open spec fn port_line_of(s: Seq<char>) -> Option<(u32, Seq<char>)> {
    let p0 = ws_end(s, 0);
    let p1 = run_end(s, p0, |ch: char| is_digit(ch));
    let p2 = ws_end(s, p1);
    if p1 == p0 || p2 == p1 || (p2 == s.len() && p2 - p1 < 2) {
        None
    } else {
        let id = match parse_u32_spec(s.subrange(p0, p1)) {
            Some(n) => n,
            None => 0u32,
        };
        Some((id, trim(s.skip(p1))))
    }
}

pub open spec fn ports_fold(ls: Seq<Seq<char>>) -> Seq<PortModel>
    decreases ls.len(),
{
    if ls.len() == 0 {
        Seq::empty()
    } else {
        let prev = ports_fold(ls.drop_last());
        match port_line_of(ls.last()) {
            Some((id, name)) => prev.push(port_from_full_name(id, name)),
            None => prev,
        }
    }
}

/// The ports that a `pw-link -I -o/-i` listing describes.
pub open spec fn parse_ports_spec(output: Seq<char>) -> Seq<PortModel> {
    ports_fold(lines(output))
}

pub open spec fn ports_view(ps: Seq<PwPort>) -> Seq<PortModel> {
    ps.map_values(|p: PwPort| p@)
}

pub open spec fn links_view(ls: Seq<PwLink>) -> Seq<LinkModel> {
    ls.map_values(|l: PwLink| l@)
}

/// Recognizes a port line; see [`port_line_of`].
pub fn match_port_line(l: &[char]) -> (r: Option<(u32, String)>)
    ensures
        crate::pwcli::header_view(r) == port_line_of(l@),
{
    let p0 = scan_ws(l, 0);
    let p1 = scan_digits(l, p0);
    let p2 = scan_ws(l, p1);
    if p1 == p0 || p2 == p1 || (p2 == l.len() && p2 - p1 < 2) {
        return None;
    }
    let id = match parse_u32_range(l, p0, p1) {
        Some(n) => n,
        None => 0u32,
    };
    let (a, b) = trim_bounds(l, p1, l.len());
    assert(l@.subrange(p1 as int, l@.len() as int) == l@.skip(p1 as int));
    Some((id, string_from_range(l, a, b)))
}

/// Parse `pw-link` port output. Format: `  53 effect_input.proc:monitor_FL`.
pub fn parse_ports(output: &str) -> (r: Result<Vec<PwPort>, String>)
    ensures
        r is Ok,
        r matches Ok(ps) ==> ports_view(ps@) == parse_ports_spec(output@),
{
    let text = chars_of(output);
    let ls = split_lines(&text);
    let mut ports: Vec<PwPort> = Vec::new();
    let ghost all = lines(output@);
    let mut i: usize = 0;
    while i < ls.len()
        invariant
            i <= ls.len(),
            all == lines(output@),
            ls@.len() == all.len(),
            forall|j: int| 0 <= j < ls@.len() ==> (#[trigger] ls@[j])@ == all[j],
            ports_view(ports@) == ports_fold(all.take(i as int)),
        decreases ls.len() - i,
    {
        proof {
            assert(all.take(i + 1).drop_last() == all.take(i as int));
            assert(all.take(i + 1).last() == ls@[i as int]@);
        }
        match match_port_line(ls[i].as_slice()) {
            Some((id, name)) => {
                let p = PwPort::from_full_name(id, name.as_str());
                ports.push(p);
                assert(ports_view(ports@) =~= ports_fold(all.take(i + 1)));
            },
            None => {},
        }
        i = i + 1;
    }
    assert(all.take(ls.len() as int) == all);
    Ok(ports)
}

/// A token of the link listing: no whitespace, and a `:` with characters on
/// both sides (`\S+:\S+`).
pub open spec fn port_token(t: Seq<char>) -> bool {
    exists|i: int| 0 < i < t.len() - 1 && t[i] == ':'
}

/// An output-port line of `pw-link -l -I`: `^\s*(\d+)\s+(\S+:\S+)\s*$`.
pub open spec fn out_port_line_of(s: Seq<char>) -> Option<(u32, Seq<char>)> {
    let p0 = ws_end(s, 0);
    let p1 = run_end(s, p0, |ch: char| is_digit(ch));
    let p2 = ws_end(s, p1);
    let p3 = run_end(s, p2, |ch: char| !is_ws(ch));
    if p1 == p0 || p2 == p1 || !port_token(s.subrange(p2, p3)) || ws_end(s, p3) != s.len() {
        None
    } else {
        let id = match parse_u32_spec(s.subrange(p0, p1)) {
            Some(n) => n,
            None => 0u32,
        };
        Some((id, s.subrange(p2, p3)))
    }
}

pub open spec fn arrow_out() -> Seq<char> {
    seq!['|', '-', '>']
}

/// A link line of `pw-link -l -I`: `^\s*(\d+)\s+\|->\s+(\d+)\s+(\S+:\S+)\s*$`,
/// giving link id, input port id and input port name.
pub open spec fn link_line_of(s: Seq<char>) -> Option<(u32, u32, Seq<char>)> {
    let p0 = ws_end(s, 0);
    let p1 = run_end(s, p0, |ch: char| is_digit(ch));
    let p2 = ws_end(s, p1);
    if p1 == p0 || p2 == p1 || !starts_with(s.skip(p2), arrow_out()) {
        None
    } else {
        let p3 = p2 + 3;
        let p4 = ws_end(s, p3);
        let p5 = run_end(s, p4, |ch: char| is_digit(ch));
        let p6 = ws_end(s, p5);
        let p7 = run_end(s, p6, |ch: char| !is_ws(ch));
        if p4 == p3 || p5 == p4 || p6 == p5 || !port_token(s.subrange(p6, p7)) || ws_end(s, p7)
            != s.len() {
            None
        } else {
            let lid = match parse_u32_spec(s.subrange(p0, p1)) {
                Some(n) => n,
                None => 0u32,
            };
            let iid = match parse_u32_spec(s.subrange(p4, p5)) {
                Some(n) => n,
                None => 0u32,
            };
            Some((lid, iid, s.subrange(p6, p7)))
        }
    }
}

pub open spec fn arrow_in_str() -> Seq<char> {
    seq!['|', '<', '-']
}

/// State of the link parser: links found, and the output port being listed.
pub open spec fn links_step(
    st: (Seq<LinkModel>, Option<(u32, Seq<char>)>),
    l: Seq<char>,
) -> (Seq<LinkModel>, Option<(u32, Seq<char>)>) {
    match link_line_of(l) {
        Some((lid, iid, iname)) => match st.1 {
            Some((oid, oname)) => (
                st.0.push(
                    LinkModel {
                        id: lid,
                        output_port_id: oid,
                        output_port_name: oname,
                        input_port_id: iid,
                        input_port_name: iname,
                    },
                ),
                st.1,
            ),
            None => st,
        },
        None => if contains_seq(l, arrow_in_str()) {
            st
        } else {
            match out_port_line_of(l) {
                Some((id, name)) => (st.0, Some((id, name))),
                None => st,
            }
        },
    }
}

pub open spec fn links_fold(ls: Seq<Seq<char>>) -> (Seq<LinkModel>, Option<(u32, Seq<char>)>)
    decreases ls.len(),
{
    if ls.len() == 0 {
        (Seq::empty(), None)
    } else {
        links_step(links_fold(ls.drop_last()), ls.last())
    }
}

/// The links that a `pw-link -l -I` listing describes.
pub open spec fn parse_links_spec(output: Seq<char>) -> Seq<LinkModel> {
    links_fold(lines(output)).0
}

/// Whether `v[from..to]` contains a `:` with characters on both sides.
fn has_inner_colon(v: &[char], from: usize, to: usize) -> (b: bool)
    requires
        from <= to <= v.len(),
    ensures
        b == port_token(v@.subrange(from as int, to as int)),
{
    let ghost t = v@.subrange(from as int, to as int);
    if to - from < 3 {
        assert forall|i: int| !(0 < i < t.len() - 1 && t[i] == ':') by {}
        return false;
    }
    let mut i = from + 1;
    while i + 1 < to
        invariant
            from + 1 <= i <= to - 1,
            to - from >= 3,
            to <= v.len(),
            t == v@.subrange(from as int, to as int),
            forall|k: int| 0 < k < i - from ==> t[k] != ':',
        decreases to - i,
    {
        if v[i] == ':' {
            assert(t[i - from] == ':');
            return true;
        }
        assert(t[i - from] == v@[i as int]);
        i = i + 1;
    }
    assert forall|k: int| !(0 < k < t.len() - 1 && t[k] == ':') by {}
    false
}

/// Recognizes an output-port line; see [`out_port_line_of`].
pub fn match_out_port_line(l: &[char]) -> (r: Option<(u32, String)>)
    ensures
        crate::pwcli::header_view(r) == out_port_line_of(l@),
{
    let p0 = scan_ws(l, 0);
    let p1 = scan_digits(l, p0);
    let p2 = scan_ws(l, p1);
    let p3 = scan_nonws(l, p2);
    if p1 == p0 || p2 == p1 || !has_inner_colon(l, p2, p3) || scan_ws(l, p3) != l.len() {
        return None;
    }
    let id = match parse_u32_range(l, p0, p1) {
        Some(n) => n,
        None => 0u32,
    };
    Some((id, string_from_range(l, p2, p3)))
}

pub open spec fn triple_view(r: Option<(u32, u32, String)>) -> Option<(u32, u32, Seq<char>)> {
    match r {
        Some((a, b, n)) => Some((a, b, n@)),
        None => None,
    }
}

/// Recognizes a link line; see [`link_line_of`].
pub fn match_link_line(l: &[char]) -> (r: Option<(u32, u32, String)>)
    ensures
        triple_view(r) == link_line_of(l@),
{
    let p0 = scan_ws(l, 0);
    let p1 = scan_digits(l, p0);
    let p2 = scan_ws(l, p1);
    let arrow = ['|', '-', '>'];
    assert(arrow@ == arrow_out());
    if p1 == p0 || p2 == p1 || !has_prefix_at(l, p2, &arrow) {
        return None;
    }
    let p3 = p2 + 3;
    let p4 = scan_ws(l, p3);
    let p5 = scan_digits(l, p4);
    let p6 = scan_ws(l, p5);
    let p7 = scan_nonws(l, p6);
    if p4 == p3 || p5 == p4 || p6 == p5 || !has_inner_colon(l, p6, p7) || scan_ws(l, p7)
        != l.len() {
        return None;
    }
    let lid = match parse_u32_range(l, p0, p1) {
        Some(n) => n,
        None => 0u32,
    };
    let iid = match parse_u32_range(l, p4, p5) {
        Some(n) => n,
        None => 0u32,
    };
    Some((lid, iid, string_from_range(l, p6, p7)))
}

/// Parse `pw-link -l -I` output.
///
/// Format:
/// ```text
///   90 effect_output.proc:output_FL
///   92   |->   82 speakereq2x2:playback_FL
/// ```
pub fn parse_links(output: &str) -> (r: Result<Vec<PwLink>, String>)
    ensures
        r is Ok,
        r matches Ok(ls) ==> links_view(ls@) == parse_links_spec(output@),
{
    let text = chars_of(output);
    let ls = split_lines(&text);
    let mut links: Vec<PwLink> = Vec::new();
    let mut cur_id: Option<u32> = None;
    let mut cur_name: Option<String> = None;
    let ghost all = lines(output@);
    let arrow_in = ['|', '<', '-'];
    assert(arrow_in@ == arrow_in_str());
    let mut i: usize = 0;
    while i < ls.len()
        invariant
            i <= ls.len(),
            all == lines(output@),
            arrow_in@ == arrow_in_str(),
            ls@.len() == all.len(),
            forall|j: int| 0 <= j < ls@.len() ==> (#[trigger] ls@[j])@ == all[j],
            cur_id.is_some() == cur_name.is_some(),
            links_view(links@) == links_fold(all.take(i as int)).0,
            links_fold(all.take(i as int)).1 == (match (cur_id, cur_name) {
                (Some(a), Some(n)) => Some((a, n@)),
                _ => None::<(u32, Seq<char>)>,
            }),
        decreases ls.len() - i,
    {
        proof {
            assert(all.take(i + 1).drop_last() == all.take(i as int));
            assert(all.take(i + 1).last() == ls@[i as int]@);
        }
        let line = ls[i].as_slice();
        match match_link_line(line) {
            Some((lid, iid, iname)) => {
                match (cur_id, &cur_name) {
                    (Some(oid), Some(oname)) => {
                        links.push(
                            PwLink {
                                id: lid,
                                output_port_id: oid,
                                output_port_name: oname.clone(),
                                input_port_id: iid,
                                input_port_name: iname,
                            },
                        );
                        assert(links_view(links@) =~= links_fold(all.take(i + 1)).0);
                    },
                    _ => {},
                }
            },
            None => {
                if !contains_chars(line, &arrow_in) {
                    match match_out_port_line(line) {
                        Some((id, name)) => {
                            cur_id = Some(id);
                            cur_name = Some(name);
                        },
                        None => {},
                    }
                }
            },
        }
        i = i + 1;
    }
    assert(all.take(ls.len() as int) == all);
    Ok(links)
}

/// Index of the first port whose name satisfies `f`, or `ports.len()`.
pub open spec fn first_port_where(ports: Seq<PortModel>, f: spec_fn(PortModel) -> bool) -> int
    decreases ports.len(),
{
    if ports.len() == 0 {
        0
    } else if f(ports[0]) {
        0
    } else {
        1 + first_port_where(ports.drop_first(), f)
    }
}

pub proof fn lemma_first_port_where(ports: Seq<PortModel>, f: spec_fn(PortModel) -> bool, k: int)
    requires
        0 <= k <= ports.len(),
        k < ports.len() ==> f(ports[k]),
        forall|j: int| 0 <= j < k ==> !f(#[trigger] ports[j]),
    ensures
        first_port_where(ports, f) == k,
    decreases ports.len(),
{
    if k > 0 {
        assert(!f(ports[0]));
        assert forall|j: int| 0 <= j < k - 1 implies !f(#[trigger] ports.drop_first()[j]) by {
            assert(ports.drop_first()[j] == ports[j + 1]);
        }
        if k - 1 < ports.len() - 1 {
            assert(ports.drop_first()[k - 1] == ports[k]);
        }
        lemma_first_port_where(ports.drop_first(), f, k - 1);
    }
}

/// Result of a search for the first port satisfying `f`.
pub open spec fn found_port(r: Option<PwPort>, ports: Seq<PortModel>, f: spec_fn(PortModel) -> bool) -> bool {
    let i = first_port_where(ports, f);
    match r {
        Some(p) => i < ports.len() && p@ == ports[i],
        None => i == ports.len(),
    }
}

/// Find a port by name pattern (the first port whose name contains `pattern`).
pub fn find_port(ports: &[PwPort], pattern: &str) -> (r: Option<PwPort>)
    ensures
        found_port(r, ports_view(ports@), |p: PortModel| contains_seq(p.name, pattern@)),
{
    let ghost ps = ports_view(ports@);
    let ghost f = |p: PortModel| contains_seq(p.name, pattern@);
    let pat = chars_of(pattern);
    let mut i: usize = 0;
    while i < ports.len()
        invariant
            i <= ports.len(),
            ps == ports_view(ports@),
            pat@ == pattern@,
            f == (|p: PortModel| contains_seq(p.name, pattern@)),
            forall|j: int| 0 <= j < i ==> !f(#[trigger] ps[j]),
        decreases ports.len() - i,
    {
        assert(ps[i as int] == ports@[i as int]@);
        let name = chars_of(ports[i].name.as_str());
        if contains_chars(&name, &pat) {
            proof {
                lemma_first_port_where(ps, f, i as int);
            }
            return Some(ports[i].clone_port());
        }
        i = i + 1;
    }
    proof {
        lemma_first_port_where(ps, f, ps.len() as int);
    }
    None
}

/// Find a port by exact name.
pub fn find_port_exact(ports: &[PwPort], name: &str) -> (r: Option<PwPort>)
    ensures
        found_port(r, ports_view(ports@), |p: PortModel| p.name == name@),
{
    let ghost ps = ports_view(ports@);
    let ghost f = |p: PortModel| p.name == name@;
    let mut i: usize = 0;
    while i < ports.len()
        invariant
            i <= ports.len(),
            ps == ports_view(ports@),
            f == (|p: PortModel| p.name == name@),
            forall|j: int| 0 <= j < i ==> !f(#[trigger] ps[j]),
        decreases ports.len() - i,
    {
        assert(ps[i as int] == ports@[i as int]@);
        if str_eq(ports[i].name.as_str(), name) {
            proof {
                lemma_first_port_where(ps, f, i as int);
            }
            return Some(ports[i].clone_port());
        }
        i = i + 1;
    }
    proof {
        lemma_first_port_where(ps, f, ps.len() as int);
    }
    None
}

impl PwPort {
    /// A copy of this port.
    pub fn clone_port(&self) -> (r: PwPort)
        ensures
            r@ == self@,
    {
        PwPort {
            id: self.id,
            name: self.name.clone(),
            node_name: self.node_name.clone(),
            port_name: self.port_name.clone(),
        }
    }
}

impl PwLink {
    /// A copy of this link.
    pub fn clone_link(&self) -> (r: PwLink)
        ensures
            r@ == self@,
    {
        PwLink {
            id: self.id,
            output_port_id: self.output_port_id,
            output_port_name: self.output_port_name.clone(),
            input_port_id: self.input_port_id,
            input_port_name: self.input_port_name.clone(),
        }
    }
}

/// Index of the first link from `output` to `input` (by port names), or `links.len()`.
pub open spec fn link_index(links: Seq<LinkModel>, output: Seq<char>, input: Seq<char>) -> int
    decreases links.len(),
{
    if links.len() == 0 {
        0
    } else if links[0].output_port_name == output && links[0].input_port_name == input {
        0
    } else {
        1 + link_index(links.drop_first(), output, input)
    }
}

pub proof fn lemma_link_index(links: Seq<LinkModel>, output: Seq<char>, input: Seq<char>, k: int)
    requires
        0 <= k <= links.len(),
        k < links.len() ==> links[k].output_port_name == output && links[k].input_port_name
            == input,
        forall|j: int|
            0 <= j < k ==> !(links[j].output_port_name == output && links[j].input_port_name
                == input),
    ensures
        link_index(links, output, input) == k,
    decreases links.len(),
{
    if k > 0 {
        assert forall|j: int| 0 <= j < k - 1 implies !(links.drop_first()[j].output_port_name
            == output && links.drop_first()[j].input_port_name == input) by {
            assert(links.drop_first()[j] == links[j + 1]);
        }
        if k - 1 < links.len() - 1 {
            assert(links.drop_first()[k - 1] == links[k]);
        }
        lemma_link_index(links.drop_first(), output, input, k - 1);
    }
}

/// Find a link by output and input port names: the first such link of the list.
pub fn find_link(links: &[PwLink], output: &str, input: &str) -> (r: Option<PwLink>)
    ensures
        ({
            let ls = links_view(links@);
            let i = link_index(ls, output@, input@);
            match r {
                Some(l) => i < ls.len() && l@ == ls[i],
                None => i == ls.len(),
            }
        }),
{
    let ghost ls = links_view(links@);
    let mut i: usize = 0;
    while i < links.len()
        invariant
            i <= links.len(),
            ls == links_view(links@),
            forall|j: int|
                0 <= j < i ==> !(ls[j].output_port_name == output@ && ls[j].input_port_name
                    == input@),
        decreases links.len() - i,
    {
        assert(ls[i as int] == links@[i as int]@);
        if str_eq(links[i].output_port_name.as_str(), output) && str_eq(
            links[i].input_port_name.as_str(),
            input,
        ) {
            proof {
                lemma_link_index(ls, output@, input@, i as int);
            }
            return Some(links[i].clone_link());
        }
        i = i + 1;
    }
    proof {
        lemma_link_index(ls, output@, input@, ls.len() as int);
    }
    None
}

/// Check if a link exists between two ports (by name).
pub fn link_exists(links: &[PwLink], output: &str, input: &str) -> (b: bool)
    ensures
        b == exists|j: int|
            0 <= j < links@.len() && (#[trigger] links@[j])@.output_port_name == output@
                && links@[j]@.input_port_name == input@,
{
    let mut i: usize = 0;
    while i < links.len()
        invariant
            i <= links.len(),
            forall|j: int|
                0 <= j < i ==> !((#[trigger] links@[j])@.output_port_name == output@
                    && links@[j]@.input_port_name == input@),
        decreases links.len() - i,
    {
        if str_eq(links[i].output_port_name.as_str(), output) && str_eq(
            links[i].input_port_name.as_str(),
            input,
        ) {
            assert(links@[i as int]@.output_port_name == output@);
            return true;
        }
        i = i + 1;
    }
    false
}

/// The first link from `output` to `input`, where there is one, goes from `output` to `input`.
pub proof fn lemma_link_index_found(links: Seq<LinkModel>, output: Seq<char>, input: Seq<char>)
    ensures
        0 <= link_index(links, output, input) <= links.len(),
        link_index(links, output, input) < links.len() ==> links[link_index(links, output, input)].output_port_name
            == output && links[link_index(links, output, input)].input_port_name == input,
    decreases links.len(),
{
    if links.len() > 0 && !(links[0].output_port_name == output && links[0].input_port_name == input) {
        lemma_link_index_found(links.drop_first(), output, input);
        let k = link_index(links.drop_first(), output, input);
        if k < links.len() - 1 {
            assert(links.drop_first()[k] == links[k + 1]);
        }
    }
}

/// The output ports that `pw-link -I -o` listed.
pub fn list_output_ports(listing: &str) -> (r: Result<Vec<PwPort>, String>)
    ensures
        r matches Ok(ps) && ports_view(ps@) == parse_ports_spec(listing@),
{
    parse_ports(listing)
}

/// The input ports that `pw-link -I -i` listed.
pub fn list_input_ports(listing: &str) -> (r: Result<Vec<PwPort>, String>)
    ensures
        r matches Ok(ps) && ports_view(ps@) == parse_ports_spec(listing@),
{
    parse_ports(listing)
}

/// What a `pw-link` call that ran comes to: `Ok` where it succeeded, else
/// `failure`, `: ` and its error output, trimmed (`Failed to create link`,
/// `Failed to remove link`).
pub fn pw_link_outcome(succeeded: bool, failure: &str, stderr: &str) -> (r: Result<(), String>)
    ensures
        succeeded ==> r is Ok,
        !succeeded ==> (r matches Err(e) && e@ == failure@ + ": "@ + crate::text::trim(stderr@)),
{
    if succeeded {
        Ok(())
    } else {
        let mut m = String::new();
        crate::text::push_str_chars(&mut m, failure);
        crate::text::push_str_chars(&mut m, ": ");
        let t = crate::text::trimmed(crate::text::chars_of(stderr).as_slice());
        crate::text::push_chars(&mut m, t.as_slice());
        Err(m)
    }
}

} // verus!
