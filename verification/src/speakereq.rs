//! SpeakerEQ plugin: EQ filter types, parameter keys and the plugin's layout.
use vstd::prelude::*;
use crate::api_server::ApiError;
use crate::pwcli::str_eq;
use crate::text::{
    chars_of, decimal, find_char, first_index_of, push_decimal, push_str_chars, starts_with,
    starts_with_at, string_from_range,
};

verus! {

pub const EQ_TYPE_OFF: i32 = 0;
pub const EQ_TYPE_LOW_SHELF: i32 = 1;
pub const EQ_TYPE_HIGH_SHELF: i32 = 2;
pub const EQ_TYPE_PEAKING: i32 = 3;
pub const EQ_TYPE_LOW_PASS: i32 = 4;
pub const EQ_TYPE_HIGH_PASS: i32 = 5;
pub const EQ_TYPE_BAND_PASS: i32 = 6;
pub const EQ_TYPE_NOTCH: i32 = 7;
pub const EQ_TYPE_ALL_PASS: i32 = 8;

/// The name of EQ filter type `id`, for the types the plugin knows.
pub open spec fn eq_type_name(id: i32) -> Option<Seq<char>> {
    if id == EQ_TYPE_OFF {
        Some("off"@)
    } else if id == EQ_TYPE_LOW_SHELF {
        Some("low_shelf"@)
    } else if id == EQ_TYPE_HIGH_SHELF {
        Some("high_shelf"@)
    } else if id == EQ_TYPE_PEAKING {
        Some("peaking"@)
    } else if id == EQ_TYPE_LOW_PASS {
        Some("low_pass"@)
    } else if id == EQ_TYPE_HIGH_PASS {
        Some("high_pass"@)
    } else if id == EQ_TYPE_BAND_PASS {
        Some("band_pass"@)
    } else if id == EQ_TYPE_NOTCH {
        Some("notch"@)
    } else if id == EQ_TYPE_ALL_PASS {
        Some("all_pass"@)
    } else {
        None
    }
}

/// The EQ filter type named `name` (in lower case).
pub open spec fn eq_type_of_name(name: Seq<char>) -> Option<i32> {
    if name == "off"@ {
        Some(EQ_TYPE_OFF)
    } else if name == "low_shelf"@ {
        Some(EQ_TYPE_LOW_SHELF)
    } else if name == "high_shelf"@ {
        Some(EQ_TYPE_HIGH_SHELF)
    } else if name == "peaking"@ {
        Some(EQ_TYPE_PEAKING)
    } else if name == "low_pass"@ {
        Some(EQ_TYPE_LOW_PASS)
    } else if name == "high_pass"@ {
        Some(EQ_TYPE_HIGH_PASS)
    } else if name == "band_pass"@ {
        Some(EQ_TYPE_BAND_PASS)
    } else if name == "notch"@ {
        Some(EQ_TYPE_NOTCH)
    } else if name == "all_pass"@ {
        Some(EQ_TYPE_ALL_PASS)
    } else {
        None
    }
}

/// `format!("{}", n)` for a signed number.
pub open spec fn signed_decimal(n: int) -> Seq<char> {
    if n < 0 {
        "-"@ + decimal((-n) as nat)
    } else {
        decimal(n as nat)
    }
}

/// The name the API gives EQ filter type `id`: its name, or `unknown_<id>`.
pub open spec fn eq_type_string(id: i32) -> Seq<char> {
    match eq_type_name(id) {
        Some(n) => n,
        None => "unknown_"@ + signed_decimal(id as int),
    }
}

/// Name of EQ filter type `type_id`; `unknown_<id>` for a type the plugin
/// does not know.
pub fn eq_type_to_string(type_id: i32) -> (r: String)
    ensures
        r@ == eq_type_string(type_id),
{
    if type_id == EQ_TYPE_OFF {
        "off".to_owned()
    } else if type_id == EQ_TYPE_LOW_SHELF {
        "low_shelf".to_owned()
    } else if type_id == EQ_TYPE_HIGH_SHELF {
        "high_shelf".to_owned()
    } else if type_id == EQ_TYPE_PEAKING {
        "peaking".to_owned()
    } else if type_id == EQ_TYPE_LOW_PASS {
        "low_pass".to_owned()
    } else if type_id == EQ_TYPE_HIGH_PASS {
        "high_pass".to_owned()
    } else if type_id == EQ_TYPE_BAND_PASS {
        "band_pass".to_owned()
    } else if type_id == EQ_TYPE_NOTCH {
        "notch".to_owned()
    } else if type_id == EQ_TYPE_ALL_PASS {
        "all_pass".to_owned()
    } else {
        let mut s = String::new();
        push_str_chars(&mut s, "unknown_");
        if type_id < 0 {
            push_str_chars(&mut s, "-");
            let magnitude: u64 = (0i64 - type_id as i64) as u64;
            push_decimal(&mut s, magnitude);
        } else {
            push_decimal(&mut s, type_id as u64);
        }
        s
    }
}

/// The EQ filter type named `lowered`, a name already in lower case.
pub fn eq_type_id(lowered: &str) -> (r: Option<i32>)
    ensures
        r == eq_type_of_name(lowered@),
{
    if str_eq(lowered, "off") {
        Some(EQ_TYPE_OFF)
    } else if str_eq(lowered, "low_shelf") {
        Some(EQ_TYPE_LOW_SHELF)
    } else if str_eq(lowered, "high_shelf") {
        Some(EQ_TYPE_HIGH_SHELF)
    } else if str_eq(lowered, "peaking") {
        Some(EQ_TYPE_PEAKING)
    } else if str_eq(lowered, "low_pass") {
        Some(EQ_TYPE_LOW_PASS)
    } else if str_eq(lowered, "high_pass") {
        Some(EQ_TYPE_HIGH_PASS)
    } else if str_eq(lowered, "band_pass") {
        Some(EQ_TYPE_BAND_PASS)
    } else if str_eq(lowered, "notch") {
        Some(EQ_TYPE_NOTCH)
    } else if str_eq(lowered, "all_pass") {
        Some(EQ_TYPE_ALL_PASS)
    } else {
        None
    }
}

/// What `str::to_lowercase` returns for `s`: its Unicode lowercase equivalent.
pub uninterp spec fn lowercase(s: Seq<char>) -> Seq<char>;

/// Every character of `s` is ASCII.
pub open spec fn is_ascii_text(s: Seq<char>) -> bool {
    forall|i: int| 0 <= i < s.len() ==> (#[trigger] s[i] as u32) < 128
}

/// The lower case of an ASCII character: `A`-`Z` become `a`-`z`, every other
/// character stays as it is.
pub open spec fn ascii_lower(c: char) -> char {
    if 'A' <= c && c <= 'Z' {
        ((c as u32) + 32) as char
    } else {
        c
    }
}

/// `s` with each character in ASCII lower case.
pub open spec fn ascii_lowercase(s: Seq<char>) -> Seq<char> {
    s.map_values(|c: char| ascii_lower(c))
}

/// The lower case of a text: for ASCII text, each letter `A`-`Z` made
/// `a`-`z`; for other text, what `str::to_lowercase` returns.
pub open spec fn lower_text(s: Seq<char>) -> Seq<char> {
    if is_ascii_text(s) {
        ascii_lowercase(s)
    } else {
        lowercase(s)
    }
}

/// `str::to_lowercase`. Claimed: the result is a function of the text alone,
/// named [`lowercase`]; and on ASCII text each character maps to one
/// character, `A`-`Z` to `a`-`z` and every other ASCII character to itself.
/// What the function does to other text is not stated.
#[verifier::external_body]
pub(crate) fn to_lowercase(s: &str) -> (r: String)
    ensures
        r@ == lowercase(s@),
        is_ascii_text(s@) ==> r@ == ascii_lowercase(s@),
{
    s.to_lowercase()
}

/// The lower case of `s`, as [`lower_text`] states it.
pub(crate) fn lower(s: &str) -> (r: String)
    ensures
        r@ == lower_text(s@),
{
    to_lowercase(s)
}

/// A character that lower case leaves as it is: an ASCII lower-case letter,
/// an ASCII digit or `_`.
pub open spec fn keeps_case(c: char) -> bool {
    ('a' <= c && c <= 'z') || ('0' <= c && c <= '9') || c == '_'
}

proof fn lemma_keeps_case_text(n: Seq<char>)
    requires
        forall|i: int| 0 <= i < n.len() ==> keeps_case(#[trigger] n[i]),
    ensures
        lower_text(n) == n,
{
    assert(is_ascii_text(n)) by {
        assert forall|i: int| 0 <= i < n.len() implies (#[trigger] n[i] as u32) < 128 by {
            assert(keeps_case(n[i]));
        }
    }
    assert(ascii_lowercase(n) =~= n) by {
        assert forall|i: int| 0 <= i < n.len() implies ascii_lowercase(n)[i] == n[i] by {
            assert(keeps_case(n[i]));
        }
    }
}

/// The API error of an EQ type name that names no type.
pub open spec fn invalid_eq_type(type_str: Seq<char>) -> Seq<char> {
    "Invalid EQ type: "@ + type_str
}

/// Every name of a known EQ type is written in characters that lower case
/// leaves as they are.
proof fn lemma_eq_type_names_keep_case(id: i32)
    ensures
        eq_type_name(id) matches Some(n) ==> forall|i: int| 0 <= i < n.len() ==> keeps_case(#[trigger] n[i]),
{
    reveal_strlit("off");
    reveal_strlit("low_shelf");
    reveal_strlit("high_shelf");
    reveal_strlit("peaking");
    reveal_strlit("low_pass");
    reveal_strlit("high_pass");
    reveal_strlit("band_pass");
    reveal_strlit("notch");
    reveal_strlit("all_pass");
}

/// The EQ filter type named `type_str`, in any case (`Low_Shelf` names the
/// low shelf); a bad request for a
/// name that names no type. The name `eq_type_to_string` gives a known type
/// reads back as that type.
pub fn eq_type_from_string(type_str: &str) -> (r: Result<i32, ApiError>)
    ensures
        match eq_type_of_name(lower_text(type_str@)) {
            Some(id) => r == Ok::<i32, ApiError>(id),
            None => r matches Err(ApiError::BadRequest(m)) && m@ == invalid_eq_type(type_str@),
        },
        forall|id: i32| #[trigger] eq_type_name(id) == Some(type_str@) ==> r == Ok::<i32, ApiError>(id),
{
    let lowered = lower(type_str);
    proof {
        assert forall|id: i32| #[trigger] eq_type_name(id) == Some(type_str@) implies eq_type_of_name(
            lower_text(type_str@),
        ) == Some(id) by {
            lemma_eq_type_names_keep_case(id);
            let n = eq_type_name(id)->0;
            assert(n == type_str@);
            assert(forall|i: int| 0 <= i < n.len() ==> keeps_case(#[trigger] n[i]));
            lemma_keeps_case_text(type_str@);
            lemma_eq_type_names_round_trip(id);
        }
    }
    match eq_type_id(lowered.as_str()) {
        Some(id) => Ok(id),
        None => {
            let mut m = String::new();
            push_str_chars(&mut m, "Invalid EQ type: ");
            push_str_chars(&mut m, type_str);
            Err(ApiError::BadRequest(m))
        },
    }
}

/// Every EQ type name the plugin knows names its type again: reading back
/// the name that `eq_type_to_string` gives a known type yields that type.
pub proof fn lemma_eq_type_names_round_trip(id: i32)
    ensures
        eq_type_name(id) matches Some(n) ==> eq_type_of_name(n) == Some(id) && eq_type_string(id) == n,
{
    reveal_strlit("off");
    reveal_strlit("low_shelf");
    reveal_strlit("high_shelf");
    reveal_strlit("peaking");
    reveal_strlit("low_pass");
    reveal_strlit("high_pass");
    reveal_strlit("band_pass");
    reveal_strlit("notch");
    reveal_strlit("all_pass");
    assert("off"@.len() == 3 && "off"@[0] == 'o');
    assert("low_shelf"@.len() == 9 && "low_shelf"@[0] == 'l');
    assert("high_shelf"@.len() == 10 && "high_shelf"@[0] == 'h');
    assert("peaking"@.len() == 7 && "peaking"@[0] == 'p');
    assert("low_pass"@.len() == 8 && "low_pass"@[0] == 'l');
    assert("high_pass"@.len() == 9 && "high_pass"@[0] == 'h');
    assert("band_pass"@.len() == 9 && "band_pass"@[0] == 'b');
    assert("notch"@.len() == 5 && "notch"@[0] == 'n');
    assert("all_pass"@.len() == 8 && "all_pass"@[0] == 'a');
}

/// A parameter key of the plugin: `prefix:param`.
pub open spec fn param_key(prefix: Seq<char>, param: Seq<char>) -> Seq<char> {
    prefix + ":"@ + param
}

/// Make a prefixed parameter key.
pub fn pkey(prefix: &str, param: &str) -> (r: String)
    ensures
        r@ == param_key(prefix@, param@),
{
    let mut s = String::new();
    push_str_chars(&mut s, prefix);
    push_str_chars(&mut s, ":");
    push_str_chars(&mut s, param);
    s
}

/// The plugin prefix a parameter key names: what stands before its first
/// `:`, where the key has one and that part starts with `speakereq`.
pub open spec fn key_prefix(key: Seq<char>) -> Option<Seq<char>> {
    let k = first_index_of(key, ':');
    if k < key.len() && starts_with(key.take(k), "speakereq"@) {
        Some(key.take(k))
    } else {
        None
    }
}

/// The prefix of the first key that names one, else `speakereq2x2`.
pub open spec fn plugin_prefix(keys: Seq<Seq<char>>) -> Seq<char>
    decreases keys.len(),
{
    if keys.len() == 0 {
        "speakereq2x2"@
    } else {
        match key_prefix(keys[0]) {
            Some(p) => p,
            None => plugin_prefix(keys.drop_first()),
        }
    }
}

pub open spec fn keys_view(keys: Seq<String>) -> Seq<Seq<char>> {
    keys.map_values(|k: String| k@)
}

/// The plugin's name prefix, like `speakereq2x2` in `speakereq2x2:Enable`,
/// from the parameter keys in the order given; `speakereq2x2` where no key
/// names one.
pub fn get_plugin_prefix(keys: &[String]) -> (r: String)
    ensures
        r@ == plugin_prefix(keys_view(keys@)),
{
    let ghost ks = keys_view(keys@);
    assert(ks.skip(0) =~= ks);
    let mut i: usize = 0;
    while i < keys.len()
        invariant
            i <= keys.len(),
            ks == keys_view(keys@),
            plugin_prefix(ks) == plugin_prefix(ks.skip(i as int)),
        decreases keys.len() - i,
    {
        let v = chars_of(keys[i].as_str());
        let c = find_char(&v, 0, v.len(), ':');
        proof {
            assert(v@.subrange(0, v@.len() as int) == v@);
            assert(ks.skip(i as int)[0] == v@);
            assert(ks.skip(i as int).drop_first() == ks.skip(i + 1));
        }
        if c < v.len() {
            let lit = chars_of("speakereq");
            if starts_with_at(&v, 0, c, &lit) {
                proof {
                    assert(v@.subrange(0, c as int) == v@.take(c as int));
                    assert(v@.take(c as int).take(lit@.len() as int) == v@.subrange(0, lit@.len() as int));
                }
                return string_from_range(&v, 0, c);
            } else {
                proof {
                    if lit@.len() <= c {
                        assert(v@.take(c as int).take(lit@.len() as int) =~= v@.subrange(0, lit@.len() as int));
                    }
                }
            }
        }
        i = i + 1;
    }
    "speakereq2x2".to_owned()
}

/// The key of the type of EQ band `band` of `block`: `prefix:block_eq_band_type`.
pub open spec fn band_type_key(prefix: Seq<char>, block: Seq<char>, band: nat) -> Seq<char> {
    param_key(prefix, block + "_eq_"@ + decimal(band) + "_type"@)
}

/// The number of EQ bands of `block`, counting from band `band` on: bands
/// count while their type key is there, up to band 100.
pub open spec fn slots_from(keys: Seq<Seq<char>>, prefix: Seq<char>, block: Seq<char>, band: nat) -> nat
    decreases 101 - band,
{
    if band > 100 || !keys.contains(band_type_key(prefix, block, band)) {
        (band - 1) as nat
    } else {
        slots_from(keys, prefix, block, band + 1)
    }
}

fn has_key(keys: &[String], key: &str) -> (b: bool)
    ensures
        b == keys_view(keys@).contains(key@),
{
    let ghost ks = keys_view(keys@);
    let mut i: usize = 0;
    while i < keys.len()
        invariant
            i <= keys.len(),
            ks == keys_view(keys@),
            forall|j: int| 0 <= j < i ==> ks[j] != key@,
        decreases keys.len() - i,
    {
        assert(ks[i as int] == keys@[i as int]@);
        if str_eq(keys[i].as_str(), key) {
            return true;
        }
        i = i + 1;
    }
    false
}

/// Count the EQ bands of `block` by probing the parameter keys: bands 1, 2,
/// ... count while their type parameter exists, up to 100.
pub fn count_eq_slots(keys: &[String], prefix: &str, block: &str) -> (r: u32)
    ensures
        r == slots_from(keys_view(keys@), prefix@, block@, 1),
{
    let mut slots: u32 = 0;
    let mut band: u32 = 1;
    while band <= 100
        invariant
            1 <= band <= 101,
            slots == band - 1,
            slots_from(keys_view(keys@), prefix@, block@, 1) == slots_from(keys_view(keys@), prefix@, block@, band as nat),
        decreases 101 - band,
    {
        let mut name = String::new();
        push_str_chars(&mut name, block);
        push_str_chars(&mut name, "_eq_");
        push_decimal(&mut name, band as u64);
        push_str_chars(&mut name, "_type");
        let key = pkey(prefix, name.as_str());
        assert(key@ == band_type_key(prefix@, block@, band as nat));
        if has_key(keys, key.as_str()) {
            slots = band;
            band = band + 1;
        } else {
            return slots;
        }
    }
    slots
}

/// A processing block of the plugin.
#[derive(Debug)]
pub struct Block {
    pub id: String,
    pub block_type: String,
    pub slots: u32,
}

/// The plugin's structure.
#[derive(Debug)]
pub struct StructureResponse {
    pub name: String,
    pub version: String,
    pub blocks: Vec<Block>,
    pub inputs: u32,
    pub outputs: u32,
    pub enabled: bool,
    pub licensed: bool,
}

/// The plugin's inputs and outputs.
#[derive(Debug)]
pub struct IoResponse {
    pub inputs: u32,
    pub outputs: u32,
}

/// Whether something is enabled.
#[derive(Debug)]
pub struct EnableValue {
    pub enabled: bool,
}

/// An EQ filter type, as the capabilities list it.
#[derive(Debug)]
pub struct EqTypeInfo {
    pub name: String,
    pub description: String,
    pub requires_gain: bool,
}

pub open spec fn block_view(b: Block) -> (Seq<char>, Seq<char>, u32) {
    (b.id@, b.block_type@, b.slots)
}

/// The plugin's blocks: two input EQs, the crossbar, two output EQs and the
/// input, output and master gains.
pub open spec fn plugin_blocks() -> Seq<(Seq<char>, Seq<char>, u32)> {
    seq![
        ("input_0"@, "eq"@, 20u32),
        ("input_1"@, "eq"@, 20u32),
        ("crossbar"@, "crossbar"@, 4u32),
        ("output_0"@, "eq"@, 20u32),
        ("output_1"@, "eq"@, 20u32),
        ("input_gain"@, "volume"@, 2u32),
        ("output_gain"@, "volume"@, 2u32),
        ("master_gain"@, "volume"@, 1u32),
    ]
}

fn block(id: &str, block_type: &str, slots: u32) -> (r: Block)
    ensures
        block_view(r) == (id@, block_type@, slots),
{
    Block { id: id.to_owned(), block_type: block_type.to_owned(), slots }
}

/// The plugin's structure, named `prefix`: enabled as its `Enable` parameter
/// says (not where it says nothing), licensed unless its `Licensed` parameter
/// says otherwise.
pub fn get_structure(prefix: String, enable: Option<bool>, licensed: Option<bool>) -> (r: StructureResponse)
    ensures
        r.name@ == prefix@,
        r.version@ == "1.0"@,
        r.blocks@.map_values(|b: Block| block_view(b)) == plugin_blocks(),
        r.inputs == 2,
        r.outputs == 2,
        r.enabled == (enable == Some(true)),
        r.licensed == (licensed != Some(false)),
{
    let mut blocks: Vec<Block> = Vec::new();
    blocks.push(block("input_0", "eq", 20));
    blocks.push(block("input_1", "eq", 20));
    blocks.push(block("crossbar", "crossbar", 4));
    blocks.push(block("output_0", "eq", 20));
    blocks.push(block("output_1", "eq", 20));
    blocks.push(block("input_gain", "volume", 2));
    blocks.push(block("output_gain", "volume", 2));
    blocks.push(block("master_gain", "volume", 1));
    assert(blocks@.map_values(|b: Block| block_view(b)) =~= plugin_blocks());
    StructureResponse {
        name: prefix,
        version: "1.0".to_owned(),
        blocks,
        inputs: 2,
        outputs: 2,
        enabled: match enable {
            Some(b) => b,
            None => false,
        },
        licensed: match licensed {
            Some(b) => b,
            None => true,
        },
    }
}

/// The plugin's layout: its four EQ blocks, the two inputs and the two
/// outputs, are EQs of 20 bands each; the crossbar is a 4-way crossbar; the
/// input, output and master gains are volume blocks; and no other block is
/// an EQ or a volume block.
pub proof fn lemma_plugin_layout()
    ensures
        ({
            let bs = plugin_blocks();
            &&& bs.contains(("input_0"@, "eq"@, 20u32))
            &&& bs.contains(("input_1"@, "eq"@, 20u32))
            &&& bs.contains(("output_0"@, "eq"@, 20u32))
            &&& bs.contains(("output_1"@, "eq"@, 20u32))
            &&& bs.contains(("crossbar"@, "crossbar"@, 4u32))
            &&& bs.contains(("input_gain"@, "volume"@, 2u32))
            &&& bs.contains(("output_gain"@, "volume"@, 2u32))
            &&& bs.contains(("master_gain"@, "volume"@, 1u32))
            &&& bs.len() == 8
            &&& forall|i: int, j: int| 0 <= i < j < bs.len() ==> (#[trigger] bs[i]).0 != (#[trigger] bs[j]).0
        }),
{
    let bs = plugin_blocks();
    assert(bs[0] == ("input_0"@, "eq"@, 20u32));
    assert(bs[1] == ("input_1"@, "eq"@, 20u32));
    assert(bs[2] == ("crossbar"@, "crossbar"@, 4u32));
    assert(bs[3] == ("output_0"@, "eq"@, 20u32));
    assert(bs[4] == ("output_1"@, "eq"@, 20u32));
    assert(bs[5] == ("input_gain"@, "volume"@, 2u32));
    assert(bs[6] == ("output_gain"@, "volume"@, 2u32));
    assert(bs[7] == ("master_gain"@, "volume"@, 1u32));
    reveal_strlit("input_0");
    reveal_strlit("input_1");
    reveal_strlit("crossbar");
    reveal_strlit("output_0");
    reveal_strlit("output_1");
    reveal_strlit("input_gain");
    reveal_strlit("output_gain");
    reveal_strlit("master_gain");
    assert("input_0"@[6] == '0' && "input_1"@[6] == '1' && "output_0"@[7] == '0' && "output_1"@[7] == '1');
    assert("input_0"@.len() == 7 && "crossbar"@.len() == 8 && "output_0"@.len() == 8);
    assert("input_gain"@.len() == 10 && "output_gain"@.len() == 11 && "master_gain"@.len() == 11);
    assert("input_gain"@[0] == 'i' && "output_gain"@[0] == 'o' && "master_gain"@[0] == 'm');
    assert("crossbar"@[0] == 'c' && "output_0"@[0] == 'o');
}

/// The prefix a key names is the part of the key before its first `:`, and
/// starts with `speakereq`; a key whose part before its first `:` starts
/// with `speakereq` names that part.
pub proof fn lemma_key_prefix(key: Seq<char>)
    ensures
        key_prefix(key) is Some ==> ({
            let p = key_prefix(key)->0;
            &&& starts_with(p, "speakereq"@)
            &&& p.len() < key.len()
            &&& key[p.len() as int] == ':'
            &&& key.take(p.len() as int) == p
            &&& !p.contains(':')
        }),
        forall|k: int|
            0 <= k < key.len() && key[k] == ':' && (forall|j: int| 0 <= j < k ==> key[j] != ':') && starts_with(
                #[trigger] key.take(k),
                "speakereq"@,
            ) ==> key_prefix(key) == Some(key.take(k)),
        !key.contains(':') ==> key_prefix(key) is None,
{
    crate::text::lemma_first_index_of(key, ':');
    let k0 = first_index_of(key, ':');
    if key_prefix(key) is Some {
        let p = key.take(k0);
        assert forall|j: int| 0 <= j < p.len() implies p[j] != ':' by {
            assert(p[j] == key[j]);
        }
    }
    assert forall|k: int|
        0 <= k < key.len() && key[k] == ':' && (forall|j: int| 0 <= j < k ==> key[j] != ':') && starts_with(
            #[trigger] key.take(k),
            "speakereq"@,
        ) implies key_prefix(key) == Some(key.take(k)) by {
        crate::text::lemma_first_index_of_unique(key, ':', k);
    }
    if !key.contains(':') {
        if k0 < key.len() {
            assert(key.contains(key[k0]));
        }
    }
}

/// The plugin prefix is that of the first key, in the order given, that
/// names one; `speakereq2x2` where none does.
pub proof fn lemma_plugin_prefix_first_named(keys: Seq<Seq<char>>)
    ensures
        (forall|i: int| 0 <= i < keys.len() ==> key_prefix(#[trigger] keys[i]) is None) ==> plugin_prefix(keys)
            == "speakereq2x2"@,
        forall|i: int|
            0 <= i < keys.len() && key_prefix(#[trigger] keys[i]) is Some && (forall|j: int|
                0 <= j < i ==> key_prefix(keys[j]) is None) ==> plugin_prefix(keys) == key_prefix(keys[i])->0,
    decreases keys.len(),
{
    if keys.len() > 0 {
        let d = keys.drop_first();
        lemma_plugin_prefix_first_named(d);
        assert forall|i: int|
            0 <= i < keys.len() && key_prefix(#[trigger] keys[i]) is Some && (forall|j: int|
                0 <= j < i ==> key_prefix(keys[j]) is None) implies plugin_prefix(keys) == key_prefix(keys[i])->0 by {
            if i > 0 {
                assert(key_prefix(keys[0]) is None);
                assert(d[i - 1] == keys[i]);
                assert forall|j: int| 0 <= j < i - 1 implies key_prefix(#[trigger] d[j]) is None by {
                    assert(d[j] == keys[j + 1]);
                }
            }
        }
        if forall|i: int| 0 <= i < keys.len() ==> key_prefix(#[trigger] keys[i]) is None {
            assert(key_prefix(keys[0]) is None);
            assert forall|i: int| 0 <= i < d.len() implies key_prefix(#[trigger] d[i]) is None by {
                assert(d[i] == keys[i + 1]);
            }
        }
    }
}

/// The EQ bands of a block are counted as documented: every band from 1 up
/// to the count has its type key; the band after the count has none, unless
/// the count is the limit of 100.
pub proof fn lemma_eq_slots_counted(keys: Seq<Seq<char>>, prefix: Seq<char>, block: Seq<char>, band: nat)
    requires
        1 <= band <= 101,
    ensures
        band - 1 <= slots_from(keys, prefix, block, band) <= 100,
        forall|b: nat|
            band <= b <= slots_from(keys, prefix, block, band) ==> keys.contains(#[trigger] band_type_key(prefix, block, b)),
        slots_from(keys, prefix, block, band) < 100 ==> !keys.contains(
            band_type_key(prefix, block, (slots_from(keys, prefix, block, band) + 1) as nat),
        ),
    decreases 101 - band,
{
    if band <= 100 && keys.contains(band_type_key(prefix, block, band)) {
        lemma_eq_slots_counted(keys, prefix, block, band + 1);
    }
}

/// The plugin has two inputs and two outputs.
pub fn get_io() -> (r: IoResponse)
    ensures
        r.inputs == 2,
        r.outputs == 2,
{
    IoResponse { inputs: 2, outputs: 2 }
}

/// What the capabilities say of EQ filter type `id`: its description, and
/// whether it takes a gain.
pub open spec fn eq_type_about(id: i32) -> (Seq<char>, bool) {
    if id == EQ_TYPE_OFF {
        ("Disabled - no filtering"@, false)
    } else if id == EQ_TYPE_LOW_SHELF {
        ("Low shelf filter - boosts/cuts low frequencies"@, true)
    } else if id == EQ_TYPE_HIGH_SHELF {
        ("High shelf filter - boosts/cuts high frequencies"@, true)
    } else if id == EQ_TYPE_PEAKING {
        ("Peaking filter - boosts/cuts around center frequency"@, true)
    } else if id == EQ_TYPE_LOW_PASS {
        ("Low pass filter - passes frequencies below cutoff"@, false)
    } else if id == EQ_TYPE_HIGH_PASS {
        ("High pass filter - passes frequencies above cutoff"@, false)
    } else if id == EQ_TYPE_BAND_PASS {
        ("Band pass filter - passes frequencies around center"@, false)
    } else if id == EQ_TYPE_NOTCH {
        ("Notch filter - attenuates frequencies around center"@, false)
    } else {
        ("All pass filter - affects phase only"@, false)
    }
}

fn eq_type_info(id: i32, description: &str, requires_gain: bool) -> (r: EqTypeInfo)
    requires
        0 <= id <= 8,
        eq_type_about(id) == (description@, requires_gain),
    ensures
        eq_type_name(id) == Some(r.name@),
        eq_type_about(id) == (r.description@, r.requires_gain),
{
    EqTypeInfo { name: eq_type_to_string(id), description: description.to_owned(), requires_gain }
}

/// The EQ filter types the plugin supports, from `off` to `all_pass` in the
/// order of their ids, each with its description and whether it takes a gain.
pub fn eq_type_infos() -> (r: Vec<EqTypeInfo>)
    ensures
        r@.len() == 9,
        forall|k: int|
            0 <= k < 9 ==> eq_type_name(k as i32) == Some((#[trigger] r@[k]).name@) && eq_type_about(k as i32)
                == (r@[k].description@, r@[k].requires_gain),
{
    let mut v: Vec<EqTypeInfo> = Vec::new();
    v.push(eq_type_info(EQ_TYPE_OFF, "Disabled - no filtering", false));
    v.push(eq_type_info(EQ_TYPE_LOW_SHELF, "Low shelf filter - boosts/cuts low frequencies", true));
    v.push(eq_type_info(EQ_TYPE_HIGH_SHELF, "High shelf filter - boosts/cuts high frequencies", true));
    v.push(eq_type_info(EQ_TYPE_PEAKING, "Peaking filter - boosts/cuts around center frequency", true));
    v.push(eq_type_info(EQ_TYPE_LOW_PASS, "Low pass filter - passes frequencies below cutoff", false));
    v.push(eq_type_info(EQ_TYPE_HIGH_PASS, "High pass filter - passes frequencies above cutoff", false));
    v.push(eq_type_info(EQ_TYPE_BAND_PASS, "Band pass filter - passes frequencies around center", false));
    v.push(eq_type_info(EQ_TYPE_NOTCH, "Notch filter - attenuates frequencies around center", false));
    v.push(eq_type_info(EQ_TYPE_ALL_PASS, "All pass filter - affects phase only", false));
    v
}

} // verus!
