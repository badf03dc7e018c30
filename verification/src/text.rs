//! Character-level helpers shared by the command-output parsers.
//!
//! Text is handled as sequences of `char`; the spec functions here give the
//! meaning of the small string operations (trimming, line splitting, decimal
//! numbers) that the parsers are specified with.
use vstd::prelude::*;
use crate::util::{regex_match, regex_match_spec};

verus! {

/// Appends one character to a `String`: the documented behaviour of `String::push`.
pub assume_specification[ String::push ](s: &mut String, ch: char)
    ensures
        final(s)@ == old(s)@.push(ch),
;

/// Unicode `White_Space`, the set that `char::is_whitespace`, `str::trim` and
/// the regex class `\s` use.
pub open spec fn is_ws(c: char) -> bool {
    let u = c as u32;
    ||| 9 <= u <= 13
    ||| u == 32
    ||| u == 0x85
    ||| u == 0xA0
    ||| u == 0x1680
    ||| 0x2000 <= u <= 0x200A
    ||| u == 0x2028
    ||| u == 0x2029
    ||| u == 0x202F
    ||| u == 0x205F
    ||| u == 0x3000
}

/// ASCII decimal digit (`char::is_ascii_digit`, and the digits that
/// `str::parse` reads).
pub open spec fn is_ascii_digit(c: char) -> bool {
    '0' <= c <= '9'
}

/// The regex class `\d` (Unicode decimal digits): for an ASCII character
/// the digits `0`-`9`; for any other character, what the regex crate's `\d`
/// finds in it.
pub open spec fn is_digit(c: char) -> bool {
    if (c as u32) < 128 {
        is_ascii_digit(c)
    } else {
        regex_match_spec("\\d"@, seq![c])
    }
}

/// Value of an ASCII decimal digit.
pub open spec fn digit_value(c: char) -> nat {
    (c as u32 - '0' as u32) as nat
}

/// The regex class `\w` (Unicode word characters): for an ASCII character
/// a letter, a digit or `_`; for any other character, what the regex crate's
/// `\w` finds in it.
pub open spec fn is_word(c: char) -> bool {
    if (c as u32) < 128 {
        ||| 'a' <= c <= 'z'
        ||| 'A' <= c <= 'Z'
        ||| is_ascii_digit(c)
        ||| c == '_'
    } else {
        regex_match_spec("\\w"@, seq![c])
    }
}

/// Every character of `s` is whitespace.
pub open spec fn all_ws(s: Seq<char>) -> bool {
    forall|i: int| 0 <= i < s.len() ==> is_ws(#[trigger] s[i])
}

/// Every character of `s` is an ASCII digit.
pub open spec fn all_digits(s: Seq<char>) -> bool {
    forall|i: int| 0 <= i < s.len() ==> is_ascii_digit(#[trigger] s[i])
}

/// Number of leading whitespace characters of `s`.
pub open spec fn ws_prefix_len(s: Seq<char>) -> nat
    decreases s.len(),
{
    if s.len() > 0 && is_ws(s[0]) {
        1 + ws_prefix_len(s.drop_first())
    } else {
        0
    }
}

/// Number of trailing whitespace characters of `s`.
pub open spec fn ws_suffix_len(s: Seq<char>) -> nat
    decreases s.len(),
{
    if s.len() > 0 && is_ws(s.last()) {
        1 + ws_suffix_len(s.drop_last())
    } else {
        0
    }
}

/// `str::trim_start`.
pub open spec fn trim_start(s: Seq<char>) -> Seq<char> {
    s.skip(ws_prefix_len(s) as int)
}

/// `str::trim_end`.
pub open spec fn trim_end(s: Seq<char>) -> Seq<char> {
    s.take(s.len() - ws_suffix_len(s))
}

/// `str::trim`.
pub open spec fn trim(s: Seq<char>) -> Seq<char> {
    trim_end(trim_start(s))
}

/// Value of a sequence of decimal digits.
pub open spec fn digits_value(s: Seq<char>) -> nat
    decreases s.len(),
{
    if s.len() == 0 {
        0
    } else {
        digits_value(s.drop_last()) * 10 + digit_value(s.last())
    }
}

/// What `str::parse::<u32>` returns: an optional `+`, then one or more
/// digits whose value fits in a `u32`.
pub open spec fn parse_u32_spec(s: Seq<char>) -> Option<u32> {
    let d = if s.len() > 0 && s[0] == '+' { s.drop_first() } else { s };
    if d.len() > 0 && all_digits(d) && digits_value(d) <= u32::MAX {
        Some(digits_value(d) as u32)
    } else {
        None
    }
}

/// Decimal representation of `n`, as `format!("{}", n)` writes it.
pub open spec fn decimal(n: nat) -> Seq<char>
    decreases n,
{
    if n < 10 {
        seq![digit_char(n)]
    } else {
        decimal(n / 10).push(digit_char(n % 10))
    }
}

pub open spec fn digit_char(d: nat) -> char {
    ((d + '0' as u32) as u32) as char
}

/// Lines of `s` as `str::lines` yields them: split at `\n`, one `\r` before
/// each `\n` removed, no empty line after a final `\n`.
pub open spec fn lines(s: Seq<char>) -> Seq<Seq<char>>
    decreases s.len(),
{
    if s.len() == 0 {
        Seq::empty()
    } else {
        let i = first_index_of(s, '\n');
        if i >= s.len() {
            seq![s]
        } else {
            let l = s.take(i);
            let l2 = if l.len() > 0 && l.last() == '\r' { l.drop_last() } else { l };
            proof {
                lemma_first_index_of(s, '\n');
            }
            seq![l2] + lines(s.skip(i + 1))
        }
    }
}

/// Index of the first occurrence of `c` in `s`, or `s.len()` when there is none.
pub open spec fn first_index_of(s: Seq<char>, c: char) -> int
    decreases s.len(),
{
    if s.len() == 0 {
        0
    } else if s[0] == c {
        0
    } else {
        1 + first_index_of(s.drop_first(), c)
    }
}

/// `needle` occurs in `hay` at position `i`.
pub open spec fn occurs_at(hay: Seq<char>, needle: Seq<char>, i: int) -> bool {
    0 <= i && i + needle.len() <= hay.len() && hay.subrange(i, i + needle.len()) == needle
}

/// `str::contains` with a string pattern.
pub open spec fn contains_seq(hay: Seq<char>, needle: Seq<char>) -> bool {
    exists|i: int| occurs_at(hay, needle, i)
}

pub proof fn lemma_first_index_of(s: Seq<char>, c: char)
    ensures
        0 <= first_index_of(s, c) <= s.len(),
        first_index_of(s, c) < s.len() ==> s[first_index_of(s, c)] == c,
        forall|j: int| 0 <= j < first_index_of(s, c) ==> s[j] != c,
    decreases s.len(),
{
    if s.len() > 0 && s[0] != c {
        lemma_first_index_of(s.drop_first(), c);
        assert forall|j: int| 0 <= j < first_index_of(s, c) implies s[j] != c by {
            if j > 0 {
                assert(s[j] == s.drop_first()[j - 1]);
            }
        }
    }
}

pub proof fn lemma_first_index_of_unique(s: Seq<char>, c: char, k: int)
    requires
        0 <= k <= s.len(),
        k < s.len() ==> s[k] == c,
        forall|j: int| 0 <= j < k ==> s[j] != c,
    ensures
        first_index_of(s, c) == k,
{
    lemma_first_index_of(s, c);
}

pub proof fn lemma_ws_prefix(s: Seq<char>)
    ensures
        ws_prefix_len(s) <= s.len(),
        all_ws(s.take(ws_prefix_len(s) as int)),
        ws_prefix_len(s) < s.len() ==> !is_ws(s[ws_prefix_len(s) as int]),
    decreases s.len(),
{
    if s.len() > 0 && is_ws(s[0]) {
        lemma_ws_prefix(s.drop_first());
        let n = ws_prefix_len(s) as int;
        assert forall|i: int| 0 <= i < n implies is_ws(#[trigger] s.take(n)[i]) by {
            if i > 0 {
                assert(s.take(n)[i] == s.drop_first().take(n - 1)[i - 1]);
            }
        }
        if n < s.len() {
            assert(s[n] == s.drop_first()[n - 1]);
        }
    }
}

pub proof fn lemma_ws_prefix_unique(s: Seq<char>, k: int)
    requires
        0 <= k <= s.len(),
        forall|i: int| 0 <= i < k ==> is_ws(#[trigger] s[i]),
        k < s.len() ==> !is_ws(s[k]),
    ensures
        ws_prefix_len(s) == k,
    decreases s.len(),
{
    if k > 0 {
        assert(is_ws(s[0]));
        assert forall|i: int| 0 <= i < k - 1 implies is_ws(#[trigger] s.drop_first()[i]) by {
            assert(s.drop_first()[i] == s[i + 1]);
        }
        if k - 1 < s.len() - 1 {
            assert(s.drop_first()[k - 1] == s[k]);
        }
        lemma_ws_prefix_unique(s.drop_first(), k - 1);
    }
}

pub proof fn lemma_ws_suffix_unique(s: Seq<char>, k: int)
    requires
        0 <= k <= s.len(),
        forall|i: int| s.len() - k <= i < s.len() ==> is_ws(#[trigger] s[i]),
        k < s.len() ==> !is_ws(s[s.len() - k - 1]),
    ensures
        ws_suffix_len(s) == k,
    decreases s.len(),
{
    if k > 0 {
        assert(is_ws(s[s.len() - 1]));
        let t = s.drop_last();
        assert forall|i: int| t.len() - (k - 1) <= i < t.len() implies is_ws(#[trigger] t[i]) by {
            assert(t[i] == s[i]);
        }
        if k - 1 < t.len() {
            assert(t[t.len() - (k - 1) - 1] == s[s.len() - k - 1]);
        }
        lemma_ws_suffix_unique(t, k - 1);
    }
}

/// Converts a string slice into its characters.
pub fn chars_of(s: &str) -> (v: Vec<char>)
    ensures
        v@ == s@,
{
    let mut v: Vec<char> = Vec::new();
    for c in it: s.chars()
        invariant
            v@ == it.seq().take(it.index() as int),
            it.seq() == s@,
            it.index() <= s@.len(),
    {
        assert(it.seq().take(it.index() + 1) == it.seq().take(it.index() as int).push(c));
        v.push(c);
    }
    assert(v@ == s@);
    v
}

/// Builds a `String` from characters.
pub fn string_from(v: &[char]) -> (s: String)
    ensures
        s@ == v@,
{
    let mut s = String::new();
    let mut i: usize = 0;
    while i < v.len()
        invariant
            i <= v.len(),
            s@ == v@.take(i as int),
        decreases v.len() - i,
    {
        assert(v@.take(i + 1) == v@.take(i as int).push(v@[i as int]));
        s.push(v[i]);
        i = i + 1;
    }
    assert(v@.take(v.len() as int) == v@);
    s
}

/// Characters `v[from..to]` as a `String`.
pub fn string_from_range(v: &[char], from: usize, to: usize) -> (s: String)
    requires
        from <= to <= v.len(),
    ensures
        s@ == v@.subrange(from as int, to as int),
{
    let mut s = String::new();
    let mut i: usize = from;
    while i < to
        invariant
            from <= i <= to <= v.len(),
            s@ == v@.subrange(from as int, i as int),
        decreases to - i,
    {
        assert(v@.subrange(from as int, i + 1) == v@.subrange(from as int, i as int).push(
            v@[i as int],
        ));
        s.push(v[i]);
        i = i + 1;
    }
    s
}

/// Classifies a character as whitespace.
pub fn char_is_ws(c: char) -> (b: bool)
    ensures
        b == is_ws(c),
{
    let u = c as u32;
    (9 <= u && u <= 13) || u == 32 || u == 0x85 || u == 0xA0 || u == 0x1680 || (0x2000 <= u && u
        <= 0x200A) || u == 0x2028 || u == 0x2029 || u == 0x202F || u == 0x205F || u == 0x3000
}

pub fn char_is_ascii_digit(c: char) -> (b: bool)
    ensures
        b == is_ascii_digit(c),
{
    '0' <= c && c <= '9'
}

/// Whether the regex class named by `class` (`\d` or `\w`) finds `c`.
fn in_regex_class(class: &str, c: char) -> (b: bool)
    ensures
        b == regex_match_spec(class@, seq![c]),
{
    let mut s = String::new();
    s.push(c);
    assert(s@ =~= seq![c]);
    regex_match(class, s.as_str())
}

/// Whether `c` is in the regex class `\d`.
pub fn char_is_digit(c: char) -> (b: bool)
    ensures
        b == is_digit(c),
{
    if (c as u32) < 128 {
        '0' <= c && c <= '9'
    } else {
        in_regex_class("\\d", c)
    }
}

/// Whether `c` is in the regex class `\w`.
pub fn char_is_word(c: char) -> (b: bool)
    ensures
        b == is_word(c),
{
    if (c as u32) < 128 {
        ('a' <= c && c <= 'z') || ('A' <= c && c <= 'Z') || ('0' <= c && c <= '9') || c == '_'
    } else {
        in_regex_class("\\w", c)
    }
}


/// Position of the first non-whitespace character in `v[from..to]` (or `to`).
pub fn skip_ws(v: &[char], from: usize, to: usize) -> (r: usize)
    requires
        from <= to <= v.len(),
    ensures
        r == from + ws_prefix_len(v@.subrange(from as int, to as int)),
        from <= r <= to,
{
    let mut i = from;
    while i < to && char_is_ws(v[i])
        invariant
            from <= i <= to <= v.len(),
            forall|k: int| from <= k < i ==> is_ws(#[trigger] v@[k]),
        decreases to - i,
    {
        i = i + 1;
    }
    proof {
        let s = v@.subrange(from as int, to as int);
        assert forall|k: int| 0 <= k < i - from implies is_ws(#[trigger] s[k]) by {
            assert(s[k] == v@[from + k]);
        }
        if i < to {
            assert(s[i - from] == v@[i as int]);
        }
        lemma_ws_prefix_unique(s, i - from);
    }
    i
}

/// Position just after the last non-whitespace character in `v[from..to]` (or `from`).
pub fn skip_ws_back(v: &[char], from: usize, to: usize) -> (r: usize)
    requires
        from <= to <= v.len(),
    ensures
        r == to - ws_suffix_len(v@.subrange(from as int, to as int)),
        from <= r <= to,
{
    let mut i = to;
    while i > from && char_is_ws(v[i - 1])
        invariant
            from <= i <= to <= v.len(),
            forall|k: int| i <= k < to ==> is_ws(#[trigger] v@[k]),
        decreases i - from,
    {
        i = i - 1;
    }
    proof {
        let s = v@.subrange(from as int, to as int);
        assert forall|k: int| s.len() - (to - i) <= k < s.len() implies is_ws(#[trigger] s[k]) by {
            assert(s[k] == v@[from + k]);
        }
        if i > from {
            assert(s[s.len() - (to - i) - 1] == v@[i - 1]);
        }
        lemma_ws_suffix_unique(s, to - i);
    }
    i
}

/// Bounds of `trim(v[from..to])` inside `v`.
pub fn trim_bounds(v: &[char], from: usize, to: usize) -> (r: (usize, usize))
    requires
        from <= to <= v.len(),
    ensures
        from <= r.0 <= r.1 <= to,
        v@.subrange(r.0 as int, r.1 as int) == trim(v@.subrange(from as int, to as int)),
{
    let a = skip_ws(v, from, to);
    let b = skip_ws_back(v, a, to);
    proof {
        let s = v@.subrange(from as int, to as int);
        assert(trim_start(s) == v@.subrange(a as int, to as int));
    }
    (a, b)
}

/// `trim` of a character slice, as characters.
pub fn trimmed(v: &[char]) -> (r: Vec<char>)
    ensures
        r@ == trim(v@),
{
    let (a, b) = trim_bounds(v, 0, v.len());
    assert(v@.subrange(0, v@.len() as int) == v@);
    sub_vec(v, a, b)
}

/// Copy of `v[from..to]`.
pub fn sub_vec(v: &[char], from: usize, to: usize) -> (r: Vec<char>)
    requires
        from <= to <= v.len(),
    ensures
        r@ == v@.subrange(from as int, to as int),
{
    let mut r: Vec<char> = Vec::new();
    let mut i = from;
    while i < to
        invariant
            from <= i <= to <= v.len(),
            r@ == v@.subrange(from as int, i as int),
        decreases to - i,
    {
        assert(v@.subrange(from as int, i + 1) == v@.subrange(from as int, i as int).push(
            v@[i as int],
        ));
        r.push(v[i]);
        i = i + 1;
    }
    r
}

/// Index of the first `c` in `v[from..to]`, or `to`.
pub fn find_char(v: &[char], from: usize, to: usize, c: char) -> (r: usize)
    requires
        from <= to <= v.len(),
    ensures
        from <= r <= to,
        r == from + first_index_of(v@.subrange(from as int, to as int), c),
        r < to ==> v@[r as int] == c,
        forall|k: int| from <= k < r ==> v@[k] != c,
{
    let mut i = from;
    while i < to && v[i] != c
        invariant
            from <= i <= to <= v.len(),
            forall|k: int| from <= k < i ==> v@[k] != c,
        decreases to - i,
    {
        i = i + 1;
    }
    proof {
        let s = v@.subrange(from as int, to as int);
        assert forall|k: int| 0 <= k < i - from implies s[k] != c by {
            assert(s[k] == v@[from + k]);
        }
        if i < to {
            assert(s[i - from] == v@[i as int]);
        }
        lemma_first_index_of_unique(s, c, i - from);
    }
    i
}

proof fn lemma_lines_step(s: Seq<char>, i: int)
    requires
        0 <= i < s.len(),
        s[i] == '\n',
        forall|k: int| 0 <= k < i ==> s[k] != '\n',
    ensures
        lines(s) == seq![
            if i > 0 && s[i - 1] == '\r' { s.take(i - 1) } else { s.take(i) },
        ] + lines(s.skip(i + 1)),
{
    lemma_first_index_of_unique(s, '\n', i);
    let l = s.take(i);
    if l.len() > 0 && l.last() == '\r' {
        assert(l.drop_last() == s.take(i - 1));
    }
}

proof fn lemma_lines_last(s: Seq<char>)
    requires
        s.len() > 0,
        forall|k: int| 0 <= k < s.len() ==> s[k] != '\n',
    ensures
        lines(s) == seq![s],
{
    lemma_first_index_of_unique(s, '\n', s.len() as int);
}

/// The lines of `v`, as `str::lines` yields them.
pub fn split_lines(v: &[char]) -> (r: Vec<Vec<char>>)
    ensures
        r@.len() == lines(v@).len(),
        forall|i: int| 0 <= i < r@.len() ==> (#[trigger] r@[i])@ == lines(v@)[i],
{
    let mut r: Vec<Vec<char>> = Vec::new();
    let ghost mut done: Seq<Seq<char>> = Seq::empty();
    let mut start: usize = 0;
    assert(v@.skip(0) == v@);
    while start < v.len()
        invariant
            start <= v.len(),
            r@.len() == done.len(),
            forall|i: int| 0 <= i < r@.len() ==> (#[trigger] r@[i])@ == done[i],
            lines(v@) == done + lines(v@.skip(start as int)),
        decreases v.len() - start,
    {
        let j = find_char(v, start, v.len(), '\n');
        let ghost rest = v@.skip(start as int);
        if j == v.len() {
            proof {
                assert forall|k: int| 0 <= k < rest.len() implies rest[k] != '\n' by {
                    assert(rest[k] == v@[start + k]);
                }
                lemma_lines_last(rest);
                assert(v@.subrange(start as int, v.len() as int) == rest);
            }
            let line = sub_vec(v, start, j);
            r.push(line);
            proof {
                done = done.push(rest);
                assert(v@.skip(v.len() as int) == Seq::<char>::empty());
                assert(lines(v@) == done + lines(v@.skip(v.len() as int)));
            }
            start = j;
        } else {
            let end = if j > start && v[j - 1] == '\r' { j - 1 } else { j };
            let line = sub_vec(v, start, end);
            proof {
                let i = j - start;
                assert(rest[i] == v@[j as int]);
                assert forall|k: int| 0 <= k < i implies rest[k] != '\n' by {
                    assert(rest[k] == v@[start + k]);
                }
                if i > 0 {
                    assert(rest[i - 1] == v@[j - 1]);
                }
                lemma_lines_step(rest, i);
                let l = if i > 0 && rest[i - 1] == '\r' { rest.take(i - 1) } else { rest.take(i) };
                assert(l == v@.subrange(start as int, end as int));
                assert(rest.skip(i + 1) == v@.skip(j + 1));
                assert(lines(v@) == done.push(l) + lines(v@.skip(j + 1)));
                done = done.push(l);
            }
            r.push(line);
            start = j + 1;
        }
    }
    proof {
        assert(v@.skip(start as int) == Seq::<char>::empty());
        assert(lines(v@) == done);
    }
    r
}


/// The characters of `format!("{}", n)`.
pub fn decimal_chars(n: u64) -> (r: Vec<char>)
    ensures
        r@ == decimal(n as nat),
    decreases n,
{
    let d = ((n % 10) as u32 + '0' as u32) as u8 as char;
    assert(d == digit_char((n % 10) as nat)) by {
        assert((n % 10) < 10);
    }
    if n < 10 {
        let mut r: Vec<char> = Vec::new();
        r.push(d);
        assert(r@ == seq![d]);
        r
    } else {
        let mut r = decimal_chars(n / 10);
        r.push(d);
        r
    }
}

/// Appends the decimal representation of `n` to `s`.
pub fn push_decimal(s: &mut String, n: u64)
    ensures
        final(s)@ == old(s)@ + decimal(n as nat),
{
    let d = decimal_chars(n);
    push_chars(s, &d);
}

/// Appends characters to `s`.
pub fn push_chars(s: &mut String, v: &[char])
    ensures
        final(s)@ == old(s)@ + v@,
{
    let ghost s0 = s@;
    let mut i: usize = 0;
    while i < v.len()
        invariant
            i <= v.len(),
            s@ == s0 + v@.take(i as int),
        decreases v.len() - i,
    {
        assert(v@.take(i + 1) == v@.take(i as int).push(v@[i as int]));
        s.push(v[i]);
        i = i + 1;
    }
    assert(v@.take(v.len() as int) == v@);
}

/// Appends a string slice to `s`.
pub fn push_str_chars(s: &mut String, t: &str)
    ensures
        final(s)@ == old(s)@ + t@,
{
    let v = chars_of(t);
    push_chars(s, &v);
}

proof fn lemma_digits_value_push(s: Seq<char>, c: char)
    ensures
        digits_value(s.push(c)) == digits_value(s) * 10 + digit_value(c),
{
    assert(s.push(c).drop_last() == s);
}

/// `str::parse::<u32>` applied to `v[from..to]`.
pub fn parse_u32_range(v: &[char], from: usize, to: usize) -> (r: Option<u32>)
    requires
        from <= to <= v.len(),
    ensures
        r == parse_u32_spec(v@.subrange(from as int, to as int)),
{
    let ghost s = v@.subrange(from as int, to as int);
    let start = if from < to && v[from] == '+' { from + 1 } else { from };
    let ghost d = if s.len() > 0 && s[0] == '+' { s.drop_first() } else { s };
    assert(d == v@.subrange(start as int, to as int));
    if start == to {
        return None;
    }
    let mut acc: u64 = 0;
    let mut i = start;
    while i < to
        invariant
            start <= i <= to <= v.len(),
            s == v@.subrange(from as int, to as int),
            d == (if s.len() > 0 && s[0] == '+' { s.drop_first() } else { s }),
            d == v@.subrange(start as int, to as int),
            all_digits(v@.subrange(start as int, i as int)),
            acc == digits_value(v@.subrange(start as int, i as int)),
            acc <= u32::MAX,
        decreases to - i,
    {
        let c = v[i];
        if !char_is_ascii_digit(c) {
            assert(d[i - start] == c);
            assert(!all_digits(d));
            assert(v@.subrange(from as int, to as int) == s);
            return None;
        }
        let dv = (c as u32 - '0' as u32) as u64;
        proof {
            lemma_digits_value_push(v@.subrange(start as int, i as int), c);
            assert(v@.subrange(start as int, i + 1) == v@.subrange(start as int, i as int).push(c));
        }
        let next = acc * 10 + dv;
        if next > u32::MAX as u64 {
            proof {
                if all_digits(d) {
                    assert(d.take(i + 1 - start) == v@.subrange(start as int, i + 1));
                    lemma_digits_value_prefix_bound(d, i + 1 - start);
                }
            }
            return None;
        }
        acc = next;
        i = i + 1;
    }
    Some(acc as u32)
}

proof fn lemma_digits_value_prefix_bound(d: Seq<char>, k: int)
    requires
        0 <= k <= d.len(),
        all_digits(d),
    ensures
        digits_value(d.take(k)) <= digits_value(d),
    decreases d.len() - k,
{
    if k == d.len() {
        assert(d.take(k) == d);
    } else {
        lemma_digits_value_prefix_bound(d, k + 1);
        assert(d.take(k + 1) == d.take(k).push(d[k]));
        lemma_digits_value_push(d.take(k), d[k]);
    }
}

/// `v[from..to]` begins with `lit`.
pub fn starts_with_at(v: &[char], from: usize, to: usize, lit: &[char]) -> (b: bool)
    requires
        from <= to <= v.len(),
    ensures
        b == (lit@.len() <= to - from && v@.subrange(from as int, from + lit@.len()) == lit@),
{
    if lit.len() > to - from {
        return false;
    }
    let mut i: usize = 0;
    while i < lit.len()
        invariant
            i <= lit.len(),
            lit.len() <= to - from,
            from <= to <= v.len(),
            forall|k: int| 0 <= k < i ==> v@[from + k] == lit@[k],
        decreases lit.len() - i,
    {
        if v[from + i] != lit[i] {
            assert(v@.subrange(from as int, from + lit@.len())[i as int] != lit@[i as int]);
            return false;
        }
        i = i + 1;
    }
    assert(v@.subrange(from as int, from + lit@.len()) == lit@);
    true
}

/// `hay` contains `needle` (as `str::contains`).
pub fn contains_chars(hay: &[char], needle: &[char]) -> (b: bool)
    ensures
        b == contains_seq(hay@, needle@),
{
    if needle.len() > hay.len() {
        assert(!contains_seq(hay@, needle@));
        return false;
    }
    let mut i: usize = 0;
    let last = hay.len() - needle.len();
    while i < last
        invariant
            needle.len() <= hay.len(),
            last == hay.len() - needle.len(),
            i <= last,
            forall|k: int| 0 <= k < i ==> !occurs_at(hay@, needle@, k),
        decreases last - i,
    {
        if starts_with_at(hay, i, hay.len(), needle) {
            assert(occurs_at(hay@, needle@, i as int));
            return true;
        }
        i = i + 1;
    }
    if starts_with_at(hay, last, hay.len(), needle) {
        assert(occurs_at(hay@, needle@, last as int));
        return true;
    }
    assert(!occurs_at(hay@, needle@, last as int));
    assert forall|k: int| !occurs_at(hay@, needle@, k) by {
        if 0 <= k < i {
        } else if k >= i {
        }
    }
    false
}


/// Length of the longest prefix of `s` whose characters all satisfy `p`.
pub open spec fn run_len(s: Seq<char>, p: spec_fn(char) -> bool) -> nat
    decreases s.len(),
{
    if s.len() > 0 && p(s[0]) {
        1 + run_len(s.drop_first(), p)
    } else {
        0
    }
}

/// `s` begins with `lit`.
pub open spec fn starts_with(s: Seq<char>, lit: Seq<char>) -> bool {
    lit.len() <= s.len() && s.take(lit.len() as int) == lit
}

pub proof fn lemma_run_len_unique(s: Seq<char>, p: spec_fn(char) -> bool, k: int)
    requires
        0 <= k <= s.len(),
        forall|i: int| 0 <= i < k ==> p(#[trigger] s[i]),
        k < s.len() ==> !p(s[k]),
    ensures
        run_len(s, p) == k,
    decreases s.len(),
{
    if k > 0 {
        assert(p(s[0]));
        assert forall|i: int| 0 <= i < k - 1 implies p(#[trigger] s.drop_first()[i]) by {
            assert(s.drop_first()[i] == s[i + 1]);
            assert(p(s[i + 1]));
        }
        if k - 1 < s.len() - 1 {
            assert(s.drop_first()[k - 1] == s[k]);
        }
        lemma_run_len_unique(s.drop_first(), p, k - 1);
    }
}

pub proof fn lemma_run_len_props(s: Seq<char>, p: spec_fn(char) -> bool)
    ensures
        run_len(s, p) <= s.len(),
        forall|i: int| 0 <= i < run_len(s, p) ==> p(#[trigger] s[i]),
        run_len(s, p) < s.len() ==> !p(s[run_len(s, p) as int]),
    decreases s.len(),
{
    if s.len() > 0 && p(s[0]) {
        lemma_run_len_props(s.drop_first(), p);
        assert forall|i: int| 0 <= i < run_len(s, p) implies p(#[trigger] s[i]) by {
            if i > 0 {
                assert(s[i] == s.drop_first()[i - 1]);
            }
        }
        if run_len(s, p) < s.len() {
            assert(s[run_len(s, p) as int] == s.drop_first()[run_len(s, p) - 1]);
        }
    }
}

/// Position of the first character of `v[from..]` that is not a digit.
pub fn scan_digits(v: &[char], from: usize) -> (r: usize)
    requires
        from <= v.len(),
    ensures
        r == from + run_len(v@.skip(from as int), |c: char| is_digit(c)),
        from <= r <= v.len(),
{
    let mut i = from;
    while i < v.len() && char_is_digit(v[i])
        invariant
            from <= i <= v.len(),
            forall|k: int| from <= k < i ==> is_digit(#[trigger] v@[k]),
        decreases v.len() - i,
    {
        i = i + 1;
    }
    proof {
        let s = v@.skip(from as int);
        assert forall|k: int| 0 <= k < i - from implies (|c: char| is_digit(c))(#[trigger] s[k]) by {
            assert(s[k] == v@[from + k]);
        }
        if i < v.len() {
            assert(s[i - from] == v@[i as int]);
        }
        lemma_run_len_unique(s, |c: char| is_digit(c), i - from);
    }
    i
}

/// Position of the first character of `v[from..]` that is not a word character.
pub fn scan_word(v: &[char], from: usize) -> (r: usize)
    requires
        from <= v.len(),
    ensures
        r == from + run_len(v@.skip(from as int), |c: char| is_word(c)),
        from <= r <= v.len(),
{
    let mut i = from;
    while i < v.len() && char_is_word(v[i])
        invariant
            from <= i <= v.len(),
            forall|k: int| from <= k < i ==> is_word(#[trigger] v@[k]),
        decreases v.len() - i,
    {
        i = i + 1;
    }
    proof {
        let s = v@.skip(from as int);
        assert forall|k: int| 0 <= k < i - from implies (|c: char| is_word(c))(#[trigger] s[k]) by {
            assert(s[k] == v@[from + k]);
        }
        if i < v.len() {
            assert(s[i - from] == v@[i as int]);
        }
        lemma_run_len_unique(s, |c: char| is_word(c), i - from);
    }
    i
}

/// Position of the first whitespace character of `v[from..]`.
pub fn scan_nonws(v: &[char], from: usize) -> (r: usize)
    requires
        from <= v.len(),
    ensures
        r == from + run_len(v@.skip(from as int), |c: char| !is_ws(c)),
        from <= r <= v.len(),
{
    let mut i = from;
    while i < v.len() && !char_is_ws(v[i])
        invariant
            from <= i <= v.len(),
            forall|k: int| from <= k < i ==> !is_ws(#[trigger] v@[k]),
        decreases v.len() - i,
    {
        i = i + 1;
    }
    proof {
        let s = v@.skip(from as int);
        assert forall|k: int| 0 <= k < i - from implies (|c: char| !is_ws(c))(#[trigger] s[k]) by {
            assert(s[k] == v@[from + k]);
        }
        if i < v.len() {
            assert(s[i - from] == v@[i as int]);
        }
        lemma_run_len_unique(s, |c: char| !is_ws(c), i - from);
    }
    i
}

/// Position of the first non-whitespace character of `v[from..]`.
pub fn scan_ws(v: &[char], from: usize) -> (r: usize)
    requires
        from <= v.len(),
    ensures
        r == from + ws_prefix_len(v@.skip(from as int)),
        from <= r <= v.len(),
{
    let r = skip_ws(v, from, v.len());
    assert(v@.subrange(from as int, v.len() as int) == v@.skip(from as int));
    r
}

/// `v[from..]` begins with `lit`.
pub fn has_prefix_at(v: &[char], from: usize, lit: &[char]) -> (b: bool)
    requires
        from <= v.len(),
    ensures
        b == starts_with(v@.skip(from as int), lit@),
{
    let b = starts_with_at(v, from, v.len(), lit);
    proof {
        let s = v@.skip(from as int);
        if lit@.len() <= s.len() {
            assert(s.take(lit@.len() as int) == v@.subrange(from as int, from + lit@.len()));
        }
    }
    b
}

} // verus!
