//! Default audio nodes as `wpctl inspect` describes them.
use vstd::prelude::*;
use crate::pwcli::{run_end, ws_end};
use crate::text::{
    chars_of, contains_seq, decimal, first_index_of, find_char, has_prefix_at, is_digit, lines, occurs_at, parse_u32_range,
    parse_u32_spec, run_len, scan_ws, split_lines, starts_with, string_from, trim, trimmed,
};

verus! {

/// Information about a default audio node.
#[derive(Debug, Clone)]
pub struct DefaultNodeInfo {
    pub id: u32,
    pub name: String,
    pub description: Option<String>,
    pub media_class: Option<String>,
}

/// Model of a [`DefaultNodeInfo`].
pub struct DefaultNodeModel {
    pub id: u32,
    pub name: Seq<char>,
    pub description: Option<Seq<char>>,
    pub media_class: Option<Seq<char>>,
}

pub open spec fn opt_string_view(o: Option<String>) -> Option<Seq<char>> {
    match o {
        Some(s) => Some(s@),
        None => None,
    }
}

impl View for DefaultNodeInfo {
    type V = DefaultNodeModel;

    open spec fn view(&self) -> DefaultNodeModel {
        DefaultNodeModel {
            id: self.id,
            name: self.name@,
            description: opt_string_view(self.description),
            media_class: opt_string_view(self.media_class),
        }
    }
}

/// `s` with every leading copy of `lit` removed (`str::trim_start_matches`).
pub open spec fn strip_all_prefix(s: Seq<char>, lit: Seq<char>) -> Seq<char>
    decreases s.len(),
{
    if lit.len() > 0 && starts_with(s, lit) {
        strip_all_prefix(s.skip(lit.len() as int), lit)
    } else {
        s
    }
}

/// Number of trailing characters of `s` equal to `c`.
pub open spec fn trailing_count(s: Seq<char>, c: char) -> nat
    decreases s.len(),
{
    if s.len() > 0 && s.last() == c {
        1 + trailing_count(s.drop_last(), c)
    } else {
        0
    }
}

/// Number of leading characters of `s` equal to `c`.
pub open spec fn leading_count(s: Seq<char>, c: char) -> nat
    decreases s.len(),
{
    if s.len() > 0 && s[0] == c {
        1 + leading_count(s.drop_first(), c)
    } else {
        0
    }
}

/// `s` with all leading and trailing `c` removed (`str::trim_matches`).
pub open spec fn trim_char(s: Seq<char>, c: char) -> Seq<char> {
    let a = s.skip(leading_count(s, c) as int);
    a.take(a.len() - trailing_count(a, c))
}

pub open spec fn id_space() -> Seq<char> {
    seq!['i', 'd', ' ']
}

pub open spec fn eq_sep() -> Seq<char> {
    seq![' ', '=', ' ']
}

pub open spec fn star_space() -> Seq<char> {
    seq!['*', ' ']
}

/// Index of the first occurrence of `lit` in `s`, or `s.len()` when there is none.
#[verifier::opaque]
pub open spec fn find_seq(s: Seq<char>, lit: Seq<char>) -> int {
    if exists|i: int| occurs_at(s, lit, i) {
        choose|i: int| occurs_at(s, lit, i) && forall|j: int| 0 <= j < i ==> !occurs_at(s, lit, j)
    } else {
        s.len() as int
    }
}

/// The id that an `id N, ...` line gives (`None` when it does not parse).
pub open spec fn inspect_id(t: Seq<char>) -> Option<u32> {
    let first = t.take(first_index_of(t, ','));
    parse_u32_spec(trim(first.skip(3)))
}

/// One `key = value` line: key without leading `* `, value without quotes.
pub open spec fn inspect_pair(t: Seq<char>) -> Option<(Seq<char>, Seq<char>)> {
    let i = find_seq(t, eq_sep());
    if i < t.len() {
        Some(
            (
                strip_all_prefix(trim(t.take(i)), star_space()),
                trim_char(trim(t.skip(i + 3)), '"'),
            ),
        )
    } else {
        None
    }
}

/// Fields collected from the lines so far: id, name, description, media class.
pub type InspectState = (Option<Option<u32>>, Option<Seq<char>>, Option<Seq<char>>, Option<Seq<char>>);

pub open spec fn inspect_step(st: InspectState, line: Seq<char>) -> InspectState {
    let t = trim(line);
    let st1 = if starts_with(t, id_space()) {
        (Some(inspect_id(t)), st.1, st.2, st.3)
    } else {
        st
    };
    match inspect_pair(t) {
        Some((k, v)) => if k == "node.name"@ {
            (st1.0, Some(v), st1.2, st1.3)
        } else if k == "node.description"@ {
            (st1.0, st1.1, Some(v), st1.3)
        } else if k == "media.class"@ {
            (st1.0, st1.1, st1.2, Some(v))
        } else {
            st1
        },
        None => st1,
    }
}

pub open spec fn inspect_fold(ls: Seq<Seq<char>>) -> InspectState
    decreases ls.len(),
{
    if ls.len() == 0 {
        (None, None, None, None)
    } else {
        inspect_step(inspect_fold(ls.drop_last()), ls.last())
    }
}

/// What `wpctl inspect` output describes: `Err` names the missing field.
pub open spec fn parse_inspect_spec(output: Seq<char>) -> Result<DefaultNodeModel, Seq<char>> {
    let st = inspect_fold(lines(output));
    let id = match st.0 {
        Some(o) => o,
        None => None,
    };
    match id {
        None => Err("Could not find node id"@),
        Some(n) => match st.1 {
            None => Err("Could not find node.name"@),
            Some(name) => Ok(
                DefaultNodeModel { id: n, name, description: st.2, media_class: st.3 },
            ),
        },
    }
}

proof fn lemma_find_seq(s: Seq<char>, lit: Seq<char>, k: int)
    requires
        0 <= k <= s.len(),
        k < s.len() ==> occurs_at(s, lit, k),
        k == s.len() ==> forall|j: int| !occurs_at(s, lit, j),
        forall|j: int| 0 <= j < k ==> !occurs_at(s, lit, j),
    ensures
        find_seq(s, lit) == k,
{
    reveal(find_seq);
    if k < s.len() {
        let c = choose|i: int| occurs_at(s, lit, i) && forall|j: int| 0 <= j < i ==> !occurs_at(s, lit, j);
        assert(occurs_at(s, lit, k) && forall|j: int| 0 <= j < k ==> !occurs_at(s, lit, j));
        if c < k {
        } else if c > k {
        }
    }
}

/// Index of the first `" = "` in `v`, or `v.len()`.
fn find_eq_sep(v: &[char]) -> (r: usize)
    ensures
        r == find_seq(v@, eq_sep()),
        r <= v.len(),
        r < v.len() ==> occurs_at(v@, eq_sep(), r as int),
{
    let sep = [' ', '=', ' '];
    assert(sep@ == eq_sep());
    let mut i: usize = 0;
    while i < v.len()
        invariant
            i <= v.len(),
            sep@ == eq_sep(),
            forall|j: int| 0 <= j < i ==> !occurs_at(v@, eq_sep(), j),
        decreases v.len() - i,
    {
        if has_prefix_at(v, i, &sep) {
            proof {
                assert(v@.skip(i as int).take(3) == v@.subrange(i as int, i + 3));
                lemma_find_seq(v@, eq_sep(), i as int);
            }
            return i;
        }
        proof {
            if occurs_at(v@, eq_sep(), i as int) {
                assert(v@.skip(i as int).take(3) == v@.subrange(i as int, i + 3));
            }
        }
        i = i + 1;
    }
    proof {
        assert forall|j: int| !occurs_at(v@, eq_sep(), j) by {
            if 0 <= j < v.len() {
            }
        }
        lemma_find_seq(v@, eq_sep(), v.len() as int);
    }
    v.len()
}

/// `strip_all_prefix(v, "* ")`.
fn strip_star_prefix(v: &[char]) -> (r: Vec<char>)
    ensures
        r@ == strip_all_prefix(v@, star_space()),
{
    let star = ['*', ' '];
    assert(star@ == star_space());
    let mut i: usize = 0;
    assert(v@.skip(0) == v@);
    while v.len() - i >= 2 && has_prefix_at(v, i, &star)
        invariant
            i <= v.len(),
            star@ == star_space(),
            strip_all_prefix(v@, star_space()) == strip_all_prefix(v@.skip(i as int), star_space()),
        decreases v.len() - i,
    {
        assert(v@.skip(i as int).skip(2) == v@.skip(i + 2));
        i = i + 2;
    }
    proof {
        if v.len() - i < 2 {
            assert(!starts_with(v@.skip(i as int), star_space()));
        }
    }
    let r = crate::text::sub_vec(v, i, v.len());
    assert(v@.subrange(i as int, v.len() as int) == v@.skip(i as int));
    r
}

/// `trim_char(v, '"')`.
fn trim_quotes(v: &[char]) -> (r: Vec<char>)
    ensures
        r@ == trim_char(v@, '"'),
{
    let mut a: usize = 0;
    assert(v@.skip(0) == v@);
    while a < v.len() && v[a] == '"'
        invariant
            a <= v.len(),
            leading_count(v@, '"') == a + leading_count(v@.skip(a as int), '"'),
        decreases v.len() - a,
    {
        assert(v@.skip(a as int).drop_first() == v@.skip(a + 1));
        a = a + 1;
    }
    assert(leading_count(v@.skip(a as int), '"') == 0);
    let ghost s = v@.skip(a as int);
    let mut b: usize = v.len();
    assert(s.take(s.len() as int) == s);
    while b > a && v[b - 1] == '"'
        invariant
            a <= b <= v.len(),
            s == v@.skip(a as int),
            trailing_count(s, '"') == (v.len() - b) + trailing_count(s.take(b - a), '"'),
        decreases b - a,
    {
        assert(s.take(b - a).drop_last() == s.take(b - a - 1));
        assert(s.take(b - a).last() == v@[b - 1]);
        b = b - 1;
    }
    proof {
        if b > a {
            assert(s.take(b - a).last() == v@[b - 1]);
        }
        assert(trailing_count(s.take(b - a), '"') == 0);
        assert(s.take(s.len() - trailing_count(s, '"')) == v@.subrange(a as int, b as int));
    }
    crate::text::sub_vec(v, a, b)
}

/// The id that an `id N, ...` line gives.
fn line_id(t: &[char]) -> (r: Option<u32>)
    requires
        starts_with(t@, id_space()),
    ensures
        r == inspect_id(t@),
{
    let c = find_char(t, 0, t.len(), ',');
    assert(t@.subrange(0, t.len() as int) == t@);
    let ghost first = t@.take(c as int);
    assert(c >= 3) by {
        assert(t@.take(3) == id_space());
        assert(t@[0] == 'i' && t@[1] == 'd' && t@[2] == ' ');
    }
    let (a, b) = crate::text::trim_bounds(t, 3, c);
    assert(first.skip(3) == t@.subrange(3, c as int));
    parse_u32_range(t, a, b)
}

/// Applies one line of `wpctl inspect` output to the fields collected so far.
fn inspect_line(
    line: &[char],
    id: &mut Option<Option<u32>>,
    name: &mut Option<String>,
    description: &mut Option<String>,
    media_class: &mut Option<String>,
)
    ensures
        (*final(id), opt_string_view(*final(name)), opt_string_view(*final(description)),
        opt_string_view(*final(media_class))) == inspect_step(
            (*old(id), opt_string_view(*old(name)), opt_string_view(*old(description)),
            opt_string_view(*old(media_class))),
            line@,
        ),
{
    let ids = ['i', 'd', ' '];
    assert(ids@ == id_space());
    let t = trimmed(line);
    assert(t@.skip(0) == t@);
    if has_prefix_at(&t, 0, &ids) {
        *id = Some(line_id(&t));
    }
    match line_pair(&t) {
        Some((key_s, val_s)) => {
            if crate::pwcli::str_eq(key_s.as_str(), "node.name") {
                *name = Some(val_s);
            } else if crate::pwcli::str_eq(key_s.as_str(), "node.description") {
                *description = Some(val_s);
            } else if crate::pwcli::str_eq(key_s.as_str(), "media.class") {
                *media_class = Some(val_s);
            }
        },
        None => {},
    }
}

/// The key and value of a trimmed `key = value` line; see [`inspect_pair`].
fn line_pair(t: &[char]) -> (r: Option<(String, String)>)
    ensures
        crate::pwcli::pair_view(r) == inspect_pair(t@),
{
    let k = find_eq_sep(t);
    if k < t.len() {
        let key_t = crate::text::sub_vec(t, 0, k);
        let key_tt = trimmed(&key_t);
        let key = strip_star_prefix(&key_tt);
        let val_t = crate::text::sub_vec(t, k + 3, t.len());
        let val_tt = trimmed(&val_t);
        let val = trim_quotes(&val_tt);
        assert(t@.subrange(0, k as int) == t@.take(k as int));
        assert(t@.subrange(k + 3, t.len() as int) == t@.skip(k + 3));
        Some((string_from(&key), string_from(&val)))
    } else {
        None
    }
}

/// Parse `wpctl inspect` output to extract node information.
pub fn parse_wpctl_inspect(output: &str) -> (r: Result<DefaultNodeInfo, String>)
    ensures
        match r {
            Ok(info) => parse_inspect_spec(output@) == Ok::<DefaultNodeModel, Seq<char>>(info@),
            Err(e) => parse_inspect_spec(output@) == Err::<DefaultNodeModel, Seq<char>>(e@),
        },
{
    let text = chars_of(output);
    let ls = split_lines(&text);
    let ghost all = lines(output@);
    let mut id: Option<Option<u32>> = None;
    let mut name: Option<String> = None;
    let mut description: Option<String> = None;
    let mut media_class: Option<String> = None;
    let mut i: usize = 0;
    while i < ls.len()
        invariant
            i <= ls.len(),
            all == lines(output@),
            ls@.len() == all.len(),
            forall|j: int| 0 <= j < ls@.len() ==> (#[trigger] ls@[j])@ == all[j],
            inspect_fold(all.take(i as int)) == (
                id,
                opt_string_view(name),
                opt_string_view(description),
                opt_string_view(media_class),
            ),
        decreases ls.len() - i,
    {
        proof {
            assert(all.take(i + 1).drop_last() == all.take(i as int));
            assert(all.take(i + 1).last() == ls@[i as int]@);
        }
        inspect_line(ls[i].as_slice(), &mut id, &mut name, &mut description, &mut media_class);
        i = i + 1;
    }
    assert(all.take(ls.len() as int) == all);
    let n = match id {
        Some(Some(n)) => n,
        _ => {
            return Err("Could not find node id".to_owned());
        },
    };
    match name {
        Some(nm) => Ok(DefaultNodeInfo { id: n, name: nm, description, media_class }),
        None => Err("Could not find node.name".to_owned()),
    }
}

/// The default audio sink, from what `wpctl inspect @DEFAULT_AUDIO_SINK@` printed.
pub fn get_default_sink(inspect_output: &str) -> (r: Result<DefaultNodeInfo, String>)
    ensures
        match r {
            Ok(info) => parse_inspect_spec(inspect_output@) == Ok::<DefaultNodeModel, Seq<char>>(info@),
            Err(e) => parse_inspect_spec(inspect_output@) == Err::<DefaultNodeModel, Seq<char>>(e@),
        },
{
    parse_wpctl_inspect(inspect_output)
}

/// The default audio source, from what `wpctl inspect @DEFAULT_AUDIO_SOURCE@` printed.
pub fn get_default_source(inspect_output: &str) -> (r: Result<DefaultNodeInfo, String>)
    ensures
        match r {
            Ok(info) => parse_inspect_spec(inspect_output@) == Ok::<DefaultNodeModel, Seq<char>>(info@),
            Err(e) => parse_inspect_spec(inspect_output@) == Err::<DefaultNodeModel, Seq<char>>(e@),
        },
{
    parse_wpctl_inspect(inspect_output)
}

/// A character of a volume: a digit or a dot.
pub open spec fn is_vol_char(c: char) -> bool {
    is_digit(c) || c == '.'
}

/// The tail `\s+\[vol:\s*([\d.]+)` of a volume line at `q`: the volume text,
/// where the tail matches there.
pub open spec fn vol_tail(s: Seq<char>, q: int) -> Option<(int, int)> {
    let a = ws_end(s, q);
    if a == q || !starts_with(s.skip(a), "[vol:"@) {
        None
    } else {
        let b = ws_end(s, a + 5);
        let c = run_end(s, b, |ch: char| is_vol_char(ch));
        if c == b {
            None
        } else {
            Some((b, c))
        }
    }
}

/// The shortest name `s[a..q]` (ending at `q` or later, with no line break)
/// after which the volume tail matches: the name's end and the volume's bounds.
pub open spec fn lazy_vol_name(s: Seq<char>, a: int, q: int) -> Option<(int, int, int)>
    decreases s.len() - q,
{
    if q >= s.len() || q <= a || s[q - 1] == '\n' {
        None
    } else {
        match vol_tail(s, q) {
            Some((b, c)) => Some((q, b, c)),
            None => lazy_vol_name(s, a, q + 1),
        }
    }
}

/// The name after the `\s+` that follows the id's dot at `d`, trying that
/// whitespace from its longest (`w` characters) down: the name's bounds and
/// the volume's.
pub open spec fn vol_name_after(s: Seq<char>, d: int, w: int) -> Option<(int, int, int, int)>
    decreases w,
{
    if w <= 0 {
        None
    } else {
        match lazy_vol_name(s, d + w, d + w + 1) {
            Some((q, b, c)) => Some((d + w, q, b, c)),
            None => vol_name_after(s, d, w - 1),
        }
    }
}

/// The volume pattern `(\d+)\.\s+(.+?)\s+\[vol:\s*([\d.]+)` matched from `p`:
/// the bounds of the id's digits, of the name and of the volume.
pub open spec fn vol_match_at(s: Seq<char>, p: int) -> Option<(int, int, int, int, int, int)> {
    let k = run_end(s, p, |ch: char| is_digit(ch));
    if k == p || !(k < s.len() && s[k] == '.') {
        None
    } else {
        let d = k + 1;
        match vol_name_after(s, d, ws_end(s, d) - d) {
            Some((a, q, b, c)) => Some((p, k, a, q, b, c)),
            None => None,
        }
    }
}

/// The leftmost match of the volume pattern at or after `p`.
pub open spec fn first_vol_match(s: Seq<char>, p: int) -> Option<(int, int, int, int, int, int)>
    decreases s.len() - p,
{
    if p >= s.len() {
        None
    } else {
        match vol_match_at(s, p) {
            Some(m) => Some(m),
            None => first_vol_match(s, p + 1),
        }
    }
}

fn vol_tail_exec(l: &[char], q: usize) -> (r: Option<(usize, usize)>)
    requires
        q <= l.len(),
    ensures
        match r {
            Some((b, c)) => vol_tail(l@, q as int) == Some((b as int, c as int)) && b <= c <= l.len(),
            None => vol_tail(l@, q as int) is None,
        },
{
    let a = scan_ws(l, q);
    let lit = ['[', 'v', 'o', 'l', ':'];
    proof {
        reveal_strlit("[vol:");
        assert(lit@ =~= "[vol:"@);
    }
    if a == q || !has_prefix_at(l, a, &lit) {
        return None;
    }
    let b = scan_ws(l, a + 5);
    let c = scan_vol(l, b);
    if c == b {
        None
    } else {
        Some((b, c))
    }
}

fn scan_vol(v: &[char], from: usize) -> (r: usize)
    requires
        from <= v.len(),
    ensures
        r == from + run_len(v@.skip(from as int), |c: char| is_vol_char(c)),
        from <= r <= v.len(),
{
    let mut i = from;
    while i < v.len() && (v[i] == '.' || crate::text::char_is_digit(v[i]))
        invariant
            from <= i <= v.len(),
            forall|k: int| from <= k < i ==> is_vol_char(#[trigger] v@[k]),
        decreases v.len() - i,
    {
        i = i + 1;
    }
    proof {
        let s = v@.skip(from as int);
        assert forall|k: int| 0 <= k < i - from implies (|c: char| is_vol_char(c))(#[trigger] s[k]) by {
            assert(s[k] == v@[from + k]);
        }
        if i < v.len() {
            assert(s[i - from] == v@[i as int]);
        }
        crate::text::lemma_run_len_unique(s, |c: char| is_vol_char(c), i - from);
    }
    i
}

fn lazy_vol_name_exec(l: &[char], a: usize, q0: usize) -> (r: Option<(usize, usize, usize)>)
    requires
        a < q0,
    ensures
        match r {
            Some((q, b, c)) => lazy_vol_name(l@, a as int, q0 as int) == Some((q as int, b as int, c as int))
                && a < q <= b <= c <= l.len(),
            None => lazy_vol_name(l@, a as int, q0 as int) is None,
        },
{
    let mut q = q0;
    while q < l.len()
        invariant
            a < q0 <= q,
            lazy_vol_name(l@, a as int, q0 as int) == lazy_vol_name(l@, a as int, q as int),
        decreases l.len() - q,
    {
        if l[q - 1] == '\n' {
            return None;
        }
        match vol_tail_exec(l, q) {
            Some((b, c)) => {
                proof {
                    let ghost t = ws_end(l@, q as int);
                    crate::text::lemma_ws_prefix(l@.skip(q as int));
                }
                return Some((q, b, c));
            },
            None => {},
        }
        q = q + 1;
    }
    None
}

fn vol_match_at_exec(l: &[char], p: usize) -> (r: Option<(usize, usize, usize, usize, usize, usize)>)
    requires
        p <= l.len(),
    ensures
        match r {
            Some((p1, k, a, q, b, c)) => vol_match_at(l@, p as int) == Some(
                (p1 as int, k as int, a as int, q as int, b as int, c as int),
            ) && p1 <= k <= a <= q <= b <= c <= l.len(),
            None => vol_match_at(l@, p as int) is None,
        },
{
    let k = crate::text::scan_digits(l, p);
    if k == p || !(k < l.len() && l[k] == '.') {
        return None;
    }
    assert(k as int == run_end(l@, p as int, |ch: char| is_digit(ch)));
    let d = k + 1;
    let e = scan_ws(l, d);
    let mut w = e - d;
    assert(vol_name_after(l@, d as int, ws_end(l@, d as int) - d) == vol_name_after(l@, d as int, w as int));
    while w > 0
        invariant
            d + w <= l.len(),
            p < k < d,
            d == k + 1,
            k < l.len(),
            l@[k as int] == '.',
            k as int == run_end(l@, p as int, |ch: char| is_digit(ch)),
            vol_name_after(l@, d as int, ws_end(l@, d as int) - d) == vol_name_after(l@, d as int, w as int),
        decreases w,
    {
        if d + w < l.len() {
            match lazy_vol_name_exec(l, d + w, d + w + 1) {
                Some((q, b, c)) => {
                    assert(vol_name_after(l@, d as int, w as int) == Some(
                        ((d + w) as int, q as int, b as int, c as int),
                    ));
                    return Some((p, k, d + w, q, b, c));
                },
                None => {},
            }
        } else {
            assert(lazy_vol_name(l@, (d + w) as int, (d + w + 1) as int) is None);
        }
        w = w - 1;
    }
    None
}

fn first_vol_match_exec(l: &[char]) -> (r: Option<(usize, usize, usize, usize, usize, usize)>)
    ensures
        match r {
            Some((p1, k, a, q, b, c)) => first_vol_match(l@, 0) == Some(
                (p1 as int, k as int, a as int, q as int, b as int, c as int),
            ) && p1 <= k <= a <= q <= b <= c <= l.len(),
            None => first_vol_match(l@, 0) is None,
        },
{
    let mut p: usize = 0;
    while p < l.len()
        invariant
            p <= l.len(),
            first_vol_match(l@, 0) == first_vol_match(l@, p as int),
        decreases l.len() - p,
    {
        match vol_match_at_exec(l, p) {
            Some(m) => {
                return Some(m);
            },
            None => {},
        }
        p = p + 1;
    }
    None
}

/// An object with a volume, as `wpctl status` lists it, with its volume as printed.
#[derive(Debug, Clone)]
pub struct VolumeEntry {
    pub id: u32,
    pub name: String,
    pub object_type: String,
    pub volume: String,
}

/// Model of a [`VolumeEntry`].
pub struct EntryModel {
    pub id: u32,
    pub name: Seq<char>,
    pub object_type: Seq<char>,
    pub volume: Seq<char>,
}

impl View for VolumeEntry {
    type V = EntryModel;

    open spec fn view(&self) -> EntryModel {
        EntryModel { id: self.id, name: self.name@, object_type: self.object_type@, volume: self.volume@ }
    }
}

pub open spec fn entries_view(es: Seq<VolumeEntry>) -> Seq<EntryModel> {
    es.map_values(|e: VolumeEntry| e@)
}

/// The section of `wpctl status` a line opens, if it opens one.
pub open spec fn section_after(section: Seq<char>, line: Seq<char>) -> Seq<char> {
    if contains_seq(line, "Sinks:"@) {
        "sink"@
    } else if contains_seq(line, "Sources:"@) {
        "source"@
    } else if contains_seq(line, "Filters:"@) {
        "filter"@
    } else if contains_seq(line, "Devices:"@) {
        "device"@
    } else if contains_seq(line, "Streams:"@) {
        "stream"@
    } else {
        section
    }
}

/// The type of a volume line's object: its section, else what the line says.
pub open spec fn entry_type(section: Seq<char>, line: Seq<char>) -> Seq<char> {
    if section.len() > 0 {
        section
    } else if contains_seq(line, "Audio/Sink"@) {
        "sink"@
    } else if contains_seq(line, "Audio/Source"@) {
        "source"@
    } else {
        "unknown"@
    }
}

/// The entry a line of `wpctl status` gives, in section `section`: its id
/// (0 where the digits do not fit a `u32`), trimmed name, type and volume.
pub open spec fn volume_entry(section: Seq<char>, line: Seq<char>) -> Option<EntryModel> {
    match first_vol_match(line, 0) {
        Some((p, k, a, q, b, c)) => Some(
            EntryModel {
                id: match parse_u32_spec(line.subrange(p, k)) {
                    Some(n) => n,
                    None => 0,
                },
                name: trim(line.subrange(a, q)),
                object_type: entry_type(section, line),
                volume: line.subrange(b, c),
            },
        ),
        None => None,
    }
}

/// The entries of the first lines, and the section the last of them is in.
pub open spec fn status_fold(ls: Seq<Seq<char>>) -> (Seq<EntryModel>, Seq<char>)
    decreases ls.len(),
{
    if ls.len() == 0 {
        (seq![], seq![])
    } else {
        let (es, sec) = status_fold(ls.drop_last());
        let sec2 = section_after(sec, ls.last());
        match volume_entry(sec2, ls.last()) {
            Some(e) => (es.push(e), sec2),
            None => (es, sec2),
        }
    }
}

/// The objects with a volume that a `wpctl status` output lists.
pub open spec fn parse_status_spec(out: Seq<char>) -> Seq<EntryModel> {
    status_fold(lines(out)).0
}

fn has(l: &[char], lit: &str) -> (b: bool)
    ensures
        b == contains_seq(l@, lit@),
{
    let v = chars_of(lit);
    crate::text::contains_chars(l, &v)
}

fn section_after_exec(section: String, l: &[char]) -> (r: String)
    ensures
        r@ == section_after(section@, l@),
{
    if has(l, "Sinks:") {
        "sink".to_owned()
    } else if has(l, "Sources:") {
        "source".to_owned()
    } else if has(l, "Filters:") {
        "filter".to_owned()
    } else if has(l, "Devices:") {
        "device".to_owned()
    } else if has(l, "Streams:") {
        "stream".to_owned()
    } else {
        section
    }
}

fn volume_entry_exec(section: &String, l: &[char]) -> (r: Option<VolumeEntry>)
    ensures
        match r {
            Some(e) => volume_entry(section@, l@) == Some(e@),
            None => volume_entry(section@, l@) is None,
        },
{
    match first_vol_match_exec(l) {
        Some((p, k, a, q, b, c)) => {
            let id = match parse_u32_range(l, p, k) {
                Some(n) => n,
                None => 0,
            };
            let raw = crate::text::sub_vec(l, a, q);
            let name = string_from(&trimmed(&raw));
            let object_type = if section.as_str().unicode_len() > 0 {
                section.clone()
            } else if has(l, "Audio/Sink") {
                "sink".to_owned()
            } else if has(l, "Audio/Source") {
                "source".to_owned()
            } else {
                "unknown".to_owned()
            };
            let volume = crate::text::string_from_range(l, b, c);
            Some(VolumeEntry { id, name, object_type, volume })
        },
        None => None,
    }
}

/// Parse what `wpctl status` prints: each line with `<id>. <name> [vol: <volume>]`
/// gives an entry, typed by the section (sinks, sources, filters, devices,
/// streams) the line stands in.
pub fn parse_wpctl_status(status: &str) -> (r: Result<Vec<VolumeEntry>, String>)
    ensures
        r matches Ok(es) && entries_view(es@) == parse_status_spec(status@),
{
    let text = chars_of(status);
    let ls = split_lines(&text);
    let ghost all = lines(status@);
    let mut entries: Vec<VolumeEntry> = Vec::new();
    let mut section = String::new();
    let mut i: usize = 0;
    assert(entries_view(entries@) =~= seq![]);
    while i < ls.len()
        invariant
            i <= ls.len(),
            ls@.len() == all.len(),
            all == lines(status@),
            text@ == status@,
            forall|j: int| 0 <= j < ls@.len() ==> (#[trigger] ls@[j])@ == all[j],
            (entries_view(entries@), section@) == status_fold(all.take(i as int)),
        decreases ls.len() - i,
    {
        assert(all.take(i + 1).drop_last() =~= all.take(i as int));
        assert(all.take(i + 1).last() == ls@[i as int]@);
        let l = ls[i].as_slice();
        let section2 = section_after_exec(section, l);
        match volume_entry_exec(&section2, l) {
            Some(e) => {
                let ghost before = entries_view(entries@);
                entries.push(e);
                assert(entries_view(entries@) =~= before.push(e@));
            },
            None => {},
        }
        section = section2;
        i = i + 1;
    }
    assert(all.take(all.len() as int) =~= all);
    Ok(entries)
}

/// `Volume:\s*([\d.]+)` matched at `p`: the bounds of the volume.
pub open spec fn volume_text_at(s: Seq<char>, p: int) -> Option<(int, int)> {
    if starts_with(s.skip(p), "Volume:"@) {
        let b = ws_end(s, p + 7);
        let c = run_end(s, b, |ch: char| is_vol_char(ch));
        if c > b {
            Some((b, c))
        } else {
            None
        }
    } else {
        None
    }
}

/// The leftmost match of `Volume:\s*([\d.]+)` at or after `p`.
pub open spec fn first_volume_text(s: Seq<char>, p: int) -> Option<(int, int)>
    decreases s.len() - p,
{
    if p >= s.len() {
        None
    } else {
        match volume_text_at(s, p) {
            Some(m) => Some(m),
            None => first_volume_text(s, p + 1),
        }
    }
}

/// The volume that `wpctl get-volume` printed (`Volume: 0.50`, maybe with
/// `[MUTED]` after it), as text.
pub open spec fn volume_text_spec(out: Seq<char>) -> Result<Seq<char>, Seq<char>> {
    match first_volume_text(out, 0) {
        Some((b, c)) => Ok(out.subrange(b, c)),
        None => Err("Could not parse volume output"@),
    }
}

/// The volume that `wpctl get-volume` printed, as text.
pub fn parse_volume_output(output: &str) -> (r: Result<String, String>)
    ensures
        match (r, volume_text_spec(output@)) {
            (Ok(v), Ok(w)) => v@ == w,
            (Err(e), Err(m)) => e@ == m,
            _ => false,
        },
{
    let v = chars_of(output);
    let lit = ['V', 'o', 'l', 'u', 'm', 'e', ':'];
    proof {
        reveal_strlit("Volume:");
        assert(lit@ =~= "Volume:"@);
    }
    let mut p: usize = 0;
    while p < v.len()
        invariant
            p <= v.len(),
            v@ == output@,
            lit@ == "Volume:"@,
            first_volume_text(v@, 0) == first_volume_text(v@, p as int),
        decreases v.len() - p,
    {
        if has_prefix_at(&v, p, &lit) {
            let b = scan_ws(&v, p + 7);
            let c = scan_vol(&v, b);
            if c > b {
                return Ok(crate::text::string_from_range(&v, b, c));
            }
        }
        p = p + 1;
    }
    Err("Could not parse volume output".to_owned())
}

/// The name of `<id>.\s+(.+?)(?:\s+\[|$)` may end at `q`: before whitespace
/// and a `[`, or at the end of the line.
pub open spec fn info_name_end(s: Seq<char>, q: int) -> bool {
    q == s.len() || (ws_end(s, q) > q && ws_end(s, q) < s.len() && s[ws_end(s, q)] == '[')
}

/// The shortest name `s[a..q]`, ending at `q` or later, with no line break,
/// after which the name may end.
pub open spec fn lazy_info_name(s: Seq<char>, a: int, q: int) -> Option<int>
    decreases s.len() - q,
{
    if q > s.len() || q <= a || s[q - 1] == '\n' {
        None
    } else if info_name_end(s, q) {
        Some(q)
    } else {
        lazy_info_name(s, a, q + 1)
    }
}

/// The name after the `\s+` that follows the id's dot at `d`, trying that
/// whitespace from its longest down.
pub open spec fn info_name_after(s: Seq<char>, d: int, w: int) -> Option<(int, int)>
    decreases w,
{
    if w <= 0 {
        None
    } else {
        match lazy_info_name(s, d + w, d + w + 1) {
            Some(q) => Some((d + w, q)),
            None => info_name_after(s, d, w - 1),
        }
    }
}

/// The pattern `<id>\.\s+(.+?)(?:\s+\[|$)` matched at `p`, `idtext` being
/// the id in decimal: the bounds of the name.
pub open spec fn info_match_at(s: Seq<char>, p: int, idtext: Seq<char>) -> Option<(int, int)> {
    if starts_with(s.skip(p), idtext + "."@) {
        let d = p + idtext.len() + 1;
        info_name_after(s, d, ws_end(s, d) - d)
    } else {
        None
    }
}

/// The leftmost match of that pattern at or after `p`.
pub open spec fn first_info_match(s: Seq<char>, p: int, idtext: Seq<char>) -> Option<(int, int)>
    decreases s.len() - p,
{
    if p >= s.len() {
        None
    } else {
        match info_match_at(s, p, idtext) {
            Some(m) => Some(m),
            None => first_info_match(s, p + 1, idtext),
        }
    }
}

/// The first of `ls` (in section `section`) where the pattern matches: the
/// trimmed name and the section of that line.
pub open spec fn info_fold(ls: Seq<Seq<char>>, idtext: Seq<char>, section: Seq<char>) -> Option<(Seq<char>, Seq<char>)>
    decreases ls.len(),
{
    if ls.len() == 0 {
        None
    } else {
        let sec2 = section_after(section, ls[0]);
        match first_info_match(ls[0], 0, idtext) {
            Some((a, q)) => Some((trim(ls[0].subrange(a, q)), sec2)),
            None => info_fold(ls.drop_first(), idtext, sec2),
        }
    }
}

/// The name and type of object `id` that `wpctl status` lists.
pub open spec fn object_info_spec(status: Seq<char>, id: u32) -> Result<(Seq<char>, Seq<char>), Seq<char>> {
    match info_fold(lines(status), decimal(id as nat), "unknown"@) {
        Some(r) => Ok(r),
        None => Err("Object "@ + decimal(id as nat) + " not found in wpctl status"@),
    }
}

fn lazy_info_name_exec(l: &[char], a: usize, q0: usize) -> (r: Option<usize>)
    requires
        a < q0,
    ensures
        match r {
            Some(q) => lazy_info_name(l@, a as int, q0 as int) == Some(q as int) && a < q <= l.len(),
            None => lazy_info_name(l@, a as int, q0 as int) is None,
        },
{
    let mut q = q0;
    while q <= l.len()
        invariant
            a < q0 <= q,
            lazy_info_name(l@, a as int, q0 as int) == lazy_info_name(l@, a as int, q as int),
        decreases l.len() + 1 - q,
    {
        if l[q - 1] == '\n' {
            return None;
        }
        if q == l.len() {
            return Some(q);
        }
        let e = scan_ws(l, q);
        if e > q && e < l.len() && l[e] == '[' {
            return Some(q);
        }
        q = q + 1;
    }
    None
}

fn info_match_at_exec(l: &[char], p: usize, pat: &[char]) -> (r: Option<(usize, usize)>)
    requires
        p <= l.len(),
        pat@.len() > 0,
        pat@.last() == '.',
    ensures
        match r {
            Some((a, q)) => info_match_at(l@, p as int, pat@.drop_last()) == Some((a as int, q as int)) && a < q <= l.len(),
            None => info_match_at(l@, p as int, pat@.drop_last()) is None,
        },
{
    let ghost idtext = pat@.drop_last();
    assert(idtext + "."@ =~= pat@) by {
        reveal_strlit(".");
    }
    if !has_prefix_at(l, p, pat) {
        return None;
    }
    let d = p + pat.len();
    let e = scan_ws(l, d);
    let mut w = e - d;
    while w > 0
        invariant
            d + w <= l.len(),
            d as int == p + idtext.len() + 1,
            idtext == pat@.drop_last(),
            idtext + "."@ == pat@,
            starts_with(l@.skip(p as int), pat@),
            info_match_at(l@, p as int, idtext) == info_name_after(l@, d as int, w as int),
        decreases w,
    {
        if d + w < l.len() {
            match lazy_info_name_exec(l, d + w, d + w + 1) {
                Some(q) => {
                    assert(info_name_after(l@, d as int, w as int) == Some(((d + w) as int, q as int)));
                    return Some((d + w, q));
                },
                None => {},
            }
        } else {
            assert(lazy_info_name(l@, (d + w) as int, (d + w + 1) as int) is None);
        }
        w = w - 1;
    }
    None
}

fn first_info_match_exec(l: &[char], pat: &[char]) -> (r: Option<(usize, usize)>)
    requires
        pat@.len() > 0,
        pat@.last() == '.',
    ensures
        match r {
            Some((a, q)) => first_info_match(l@, 0, pat@.drop_last()) == Some((a as int, q as int)) && a < q <= l.len(),
            None => first_info_match(l@, 0, pat@.drop_last()) is None,
        },
{
    let mut p: usize = 0;
    while p < l.len()
        invariant
            p <= l.len(),
            pat@.len() > 0,
            pat@.last() == '.',
            first_info_match(l@, 0, pat@.drop_last()) == first_info_match(l@, p as int, pat@.drop_last()),
        decreases l.len() - p,
    {
        match info_match_at_exec(l, p, pat) {
            Some(m) => {
                return Some(m);
            },
            None => {},
        }
        p = p + 1;
    }
    None
}

/// The name and type of object `id`, from what `wpctl status` printed: the
/// first line with `<id>. <name>` (ending before ` [` or at the end of the
/// line) gives the name, trimmed, and the section it stands in (`unknown`
/// before any section).
pub fn get_object_info(status: &str, id: u32) -> (r: Result<(String, String), String>)
    ensures
        match (r, object_info_spec(status@, id)) {
            (Ok((n, t)), Ok((n2, t2))) => n@ == n2 && t@ == t2,
            (Err(e), Err(m)) => e@ == m,
            _ => false,
        },
{
    let text = chars_of(status);
    let ls = split_lines(&text);
    let ghost all = lines(status@);
    let mut pat = crate::text::decimal_chars(id as u64);
    let ghost idtext = pat@;
    pat.push('.');
    assert(pat@.drop_last() =~= idtext);
    let mut section = "unknown".to_owned();
    let mut i: usize = 0;
    assert(all.skip(0) =~= all);
    while i < ls.len()
        invariant
            i <= ls.len(),
            ls@.len() == all.len(),
            all == lines(status@),
            forall|j: int| 0 <= j < ls@.len() ==> (#[trigger] ls@[j])@ == all[j],
            pat@.len() > 0,
            pat@.last() == '.',
            pat@.drop_last() == idtext,
            idtext == decimal(id as nat),
            info_fold(all, idtext, "unknown"@) == info_fold(all.skip(i as int), idtext, section@),
        decreases ls.len() - i,
    {
        assert(all.skip(i as int)[0] == ls@[i as int]@);
        assert(all.skip(i as int).drop_first() =~= all.skip(i + 1));
        let l = ls[i].as_slice();
        section = section_after_exec(section, l);
        match first_info_match_exec(l, &pat) {
            Some((a, q)) => {
                let raw = crate::text::sub_vec(l, a, q);
                let name = string_from(&trimmed(&raw));
                return Ok((name, section));
            },
            None => {},
        }
        i = i + 1;
    }
    let mut m = String::new();
    crate::text::push_str_chars(&mut m, "Object ");
    crate::text::push_decimal(&mut m, id as u64);
    crate::text::push_str_chars(&mut m, " not found in wpctl status");
    Err(m)
}


/// What a `wpctl` call on object `id` that ran comes to: object not found
/// where its output or error output says `not found` (wpctl says so with a
/// zero exit status too), else a failure of `wpctl <what>` with the error
/// output where it exited with an error, else its output.
pub open spec fn wpctl_outcome_spec(
    id: u32,
    what: Seq<char>,
    succeeded: bool,
    stdout: Seq<char>,
    stderr: Seq<char>,
) -> Result<Seq<char>, Seq<char>> {
    if contains_seq(stdout, "not found"@) || contains_seq(stderr, "not found"@) {
        Err("Object "@ + decimal(id as nat) + " not found"@)
    } else if !succeeded {
        Err("wpctl "@ + what + " failed: "@ + stderr)
    } else {
        Ok(stdout)
    }
}

/// Decide what a `wpctl <what>` call on object `id` came to, given whether
/// it exited successfully and what it printed.
pub fn wpctl_outcome(id: u32, what: &str, succeeded: bool, stdout: String, stderr: &str) -> (r: Result<
    String,
    String,
>)
    ensures
        match r {
            Ok(o) => wpctl_outcome_spec(id, what@, succeeded, stdout@, stderr@) == Ok::<Seq<char>, Seq<char>>(o@),
            Err(e) => wpctl_outcome_spec(id, what@, succeeded, stdout@, stderr@) == Err::<Seq<char>, Seq<char>>(e@),
        },
{
    let nf = chars_of("not found");
    let out_v = chars_of(stdout.as_str());
    let err_v = chars_of(stderr);
    if crate::text::contains_chars(&out_v, &nf) || crate::text::contains_chars(&err_v, &nf) {
        let mut m = String::new();
        crate::text::push_str_chars(&mut m, "Object ");
        crate::text::push_decimal(&mut m, id as u64);
        crate::text::push_str_chars(&mut m, " not found");
        return Err(m);
    }
    if !succeeded {
        let mut m = String::new();
        crate::text::push_str_chars(&mut m, "wpctl ");
        crate::text::push_str_chars(&mut m, what);
        crate::text::push_str_chars(&mut m, " failed: ");
        crate::text::push_str_chars(&mut m, stderr);
        return Err(m);
    }
    Ok(stdout)
}


/// A line that opens a section of `wpctl status`: it names the sinks,
/// sources, filters, devices or streams.
pub open spec fn is_section_header(line: Seq<char>) -> bool {
    contains_seq(line, "Sinks:"@) || contains_seq(line, "Sources:"@) || contains_seq(line, "Filters:"@)
        || contains_seq(line, "Devices:"@) || contains_seq(line, "Streams:"@)
}

/// Each section header sets its section (sinks before sources before
/// filters before devices before streams, where a line names several), and
/// any other line keeps the section it is in.
pub proof fn lemma_section_headers(section: Seq<char>, line: Seq<char>)
    ensures
        contains_seq(line, "Sinks:"@) ==> section_after(section, line) == "sink"@,
        !contains_seq(line, "Sinks:"@) && contains_seq(line, "Sources:"@) ==> section_after(section, line)
            == "source"@,
        !contains_seq(line, "Sinks:"@) && !contains_seq(line, "Sources:"@) && contains_seq(line, "Filters:"@)
            ==> section_after(section, line) == "filter"@,
        !contains_seq(line, "Sinks:"@) && !contains_seq(line, "Sources:"@) && !contains_seq(line, "Filters:"@)
            && contains_seq(line, "Devices:"@) ==> section_after(section, line) == "device"@,
        !contains_seq(line, "Sinks:"@) && !contains_seq(line, "Sources:"@) && !contains_seq(line, "Filters:"@)
            && !contains_seq(line, "Devices:"@) && contains_seq(line, "Streams:"@) ==> section_after(section, line)
            == "stream"@,
        !is_section_header(line) ==> section_after(section, line) == section,
{
}

/// The type of a volume line's object: the section it is in; before any
/// section, a sink where the line names `Audio/Sink`, else a source where it
/// names `Audio/Source`, else unknown.
pub proof fn lemma_entry_type(section: Seq<char>, line: Seq<char>)
    ensures
        section.len() > 0 ==> entry_type(section, line) == section,
        section.len() == 0 && contains_seq(line, "Audio/Sink"@) ==> entry_type(section, line) == "sink"@,
        section.len() == 0 && !contains_seq(line, "Audio/Sink"@) && contains_seq(line, "Audio/Source"@) ==> entry_type(
            section,
            line,
        ) == "source"@,
        section.len() == 0 && !contains_seq(line, "Audio/Sink"@) && !contains_seq(line, "Audio/Source"@)
            ==> entry_type(section, line) == "unknown"@,
{
}

/// Every volume line in the sources section of `wpctl status` (after a line
/// naming `Sources:` but not `Sinks:`, with no section header since) is
/// listed as a source: the section the lines end in is the sources, and the
/// entry of a last such line has type `source`.
pub proof fn lemma_source_section_entries(ls: Seq<Seq<char>>, k: int)
    requires
        0 <= k < ls.len(),
        contains_seq(ls[k], "Sources:"@),
        !contains_seq(ls[k], "Sinks:"@),
        forall|i: int| k < i < ls.len() ==> !is_section_header(#[trigger] ls[i]),
    ensures
        status_fold(ls).1 == "source"@,
        k < ls.len() - 1 && first_vol_match(ls.last(), 0) is Some ==> status_fold(ls).0.len() > 0 && status_fold(
            ls,
        ).0.last().object_type == "source"@,
    decreases ls.len(),
{
    reveal_strlit("source");
    assert("source"@.len() == 6);
    let d = ls.drop_last();
    if k < ls.len() - 1 {
        assert forall|i: int| k < i < d.len() implies !is_section_header(#[trigger] d[i]) by {
            assert(d[i] == ls[i]);
        }
        assert(d[k] == ls[k]);
        lemma_source_section_entries(d, k);
        assert(!is_section_header(ls[ls.len() - 1]));
        lemma_section_headers(status_fold(d).1, ls.last());
    } else {
        lemma_section_headers(status_fold(d).1, ls.last());
    }
}

/// The lines of a sources section name sources in the lookup of one object
/// too: where the line of the object follows a line naming `Sources:` but
/// not `Sinks:`, with no section header in between, its type is `source`.
pub proof fn lemma_source_section_info(ls: Seq<Seq<char>>, idtext: Seq<char>, section: Seq<char>, k: int)
    requires
        0 <= k < ls.len(),
        contains_seq(ls[k], "Sources:"@),
        !contains_seq(ls[k], "Sinks:"@),
        forall|i: int| 0 <= i < k ==> first_info_match(#[trigger] ls[i], 0, idtext) is None,
        forall|i: int| k < i < ls.len() ==> !is_section_header(#[trigger] ls[i]),
    ensures
        match info_fold(ls, idtext, section) {
            Some(r) => r.1 == "source"@,
            None => true,
        },
    decreases ls.len(),
{
    lemma_section_headers(section, ls[0]);
    let d = ls.drop_first();
    if k > 0 {
        assert(first_info_match(ls[0], 0, idtext) is None);
        assert forall|i: int| 0 <= i < k - 1 implies first_info_match(#[trigger] d[i], 0, idtext) is None by {
            assert(d[i] == ls[i + 1]);
        }
        assert forall|i: int| k - 1 < i < d.len() implies !is_section_header(#[trigger] d[i]) by {
            assert(d[i] == ls[i + 1]);
        }
        assert(d[k - 1] == ls[k]);
        lemma_source_section_info(d, idtext, section_after(section, ls[0]), k - 1);
    } else {
        lemma_source_section_info_tail(d, idtext, "source"@);
    }
}

proof fn lemma_source_section_info_tail(ls: Seq<Seq<char>>, idtext: Seq<char>, section: Seq<char>)
    requires
        section == "source"@,
        forall|i: int| 0 <= i < ls.len() ==> !is_section_header(#[trigger] ls[i]),
    ensures
        match info_fold(ls, idtext, section) {
            Some(r) => r.1 == "source"@,
            None => true,
        },
    decreases ls.len(),
{
    if ls.len() > 0 {
        assert(!is_section_header(ls[0]));
        lemma_section_headers(section, ls[0]);
        let d = ls.drop_first();
        assert forall|i: int| 0 <= i < d.len() implies !is_section_header(#[trigger] d[i]) by {
            assert(d[i] == ls[i + 1]);
        }
        lemma_source_section_info_tail(d, idtext, section);
    }
}

} // verus!
