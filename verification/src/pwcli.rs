//! PipeWire objects as `pw-cli ls` lists them, and the parser of that listing.
use vstd::prelude::*;
use crate::text::{
    chars_of, contains_chars, contains_seq, decimal, first_index_of, has_prefix_at, is_digit,
    is_word, lines, parse_u32_range, parse_u32_spec, push_decimal, push_str_chars, run_len,
    scan_digits, scan_nonws, scan_word, scan_ws, split_lines, starts_with, string_from_range,
    find_char, all_ws, ws_prefix_len, is_ws, lemma_ws_prefix, skip_ws,
};

verus! {

/// String equality as `str`'s `PartialEq` documents it: same characters.
pub assume_specification[ <str as PartialEq>::eq ](s: &str, other: &str) -> (res: bool)
    ensures
        res == (s@ == other@),
;

/// Object type names as `pw-cli` reports them.
pub const TYPE_CORE: &'static str = "Core";
pub const TYPE_MODULE: &'static str = "Module";
pub const TYPE_NODE: &'static str = "Node";
pub const TYPE_DEVICE: &'static str = "Device";
pub const TYPE_PORT: &'static str = "Port";
pub const TYPE_FACTORY: &'static str = "Factory";
pub const TYPE_CLIENT: &'static str = "Client";
pub const TYPE_LINK: &'static str = "Link";
pub const TYPE_METADATA: &'static str = "Metadata";

/// A PipeWire object as returned by `pw-cli ls`.
///
/// `properties` holds the key/value pairs in the order they were first seen;
/// a key is looked up at its first entry.
#[derive(Debug, Clone)]
pub struct PwObject {
    pub id: u32,
    pub object_type: String,
    pub properties: Vec<(String, String)>,
}

/// Mathematical model of a [`PwObject`].
pub struct ObjectModel {
    pub id: u32,
    pub object_type: Seq<char>,
    pub props: Seq<(Seq<char>, Seq<char>)>,
}

/// String equality, by characters.
pub fn str_eq(a: &str, b: &str) -> (r: bool)
    ensures
        r == (a@ == b@),
{
    <str as PartialEq>::eq(a, b)
}

pub open spec fn prop_view(p: (String, String)) -> (Seq<char>, Seq<char>) {
    (p.0@, p.1@)
}

impl View for PwObject {
    type V = ObjectModel;

    open spec fn view(&self) -> ObjectModel {
        ObjectModel {
            id: self.id,
            object_type: self.object_type@,
            props: self.properties@.map_values(|p: (String, String)| prop_view(p)),
        }
    }
}

/// Value of `key` in a property list: the value of its first entry.
pub open spec fn lookup(ps: Seq<(Seq<char>, Seq<char>)>, key: Seq<char>) -> Option<Seq<char>>
    decreases ps.len(),
{
    if ps.len() == 0 {
        None
    } else if ps[0].0 == key {
        Some(ps[0].1)
    } else {
        lookup(ps.drop_first(), key)
    }
}

/// Index of the first entry with `key`, or `ps.len()`.
pub open spec fn key_index(ps: Seq<(Seq<char>, Seq<char>)>, key: Seq<char>) -> int
    decreases ps.len(),
{
    if ps.len() == 0 {
        0
    } else if ps[0].0 == key {
        0
    } else {
        1 + key_index(ps.drop_first(), key)
    }
}

/// Property list after setting `key` to `value` (map insertion: the value of an
/// existing key is replaced in place, a new key is appended).
pub open spec fn props_insert(ps: Seq<(Seq<char>, Seq<char>)>, key: Seq<char>, value: Seq<char>) -> Seq<
    (Seq<char>, Seq<char>),
> {
    let i = key_index(ps, key);
    if i < ps.len() {
        ps.update(i, (key, value))
    } else {
        ps.push((key, value))
    }
}

pub proof fn lemma_key_index(ps: Seq<(Seq<char>, Seq<char>)>, key: Seq<char>)
    ensures
        0 <= key_index(ps, key) <= ps.len(),
        key_index(ps, key) < ps.len() ==> ps[key_index(ps, key)].0 == key,
        forall|j: int| 0 <= j < key_index(ps, key) ==> ps[j].0 != key,
        lookup(ps, key) == (if key_index(ps, key) < ps.len() {
            Some(ps[key_index(ps, key)].1)
        } else {
            None::<Seq<char>>
        }),
    decreases ps.len(),
{
    if ps.len() > 0 && ps[0].0 != key {
        lemma_key_index(ps.drop_first(), key);
        assert forall|j: int| 0 <= j < key_index(ps, key) implies ps[j].0 != key by {
            if j > 0 {
                assert(ps[j] == ps.drop_first()[j - 1]);
            }
        }
    }
}

pub proof fn lemma_key_index_unique(ps: Seq<(Seq<char>, Seq<char>)>, key: Seq<char>, k: int)
    requires
        0 <= k <= ps.len(),
        k < ps.len() ==> ps[k].0 == key,
        forall|j: int| 0 <= j < k ==> ps[j].0 != key,
    ensures
        key_index(ps, key) == k,
    decreases ps.len(),
{
    if k > 0 {
        assert forall|j: int| 0 <= j < k - 1 implies ps.drop_first()[j].0 != key by {
            assert(ps.drop_first()[j] == ps[j + 1]);
        }
        if k - 1 < ps.len() - 1 {
            assert(ps.drop_first()[k - 1] == ps[k]);
        }
        lemma_key_index_unique(ps.drop_first(), key, k - 1);
    }
}

/// Setting a key is observed by lookup of that key, and no other key changes.
pub proof fn lemma_lookup_insert(
    ps: Seq<(Seq<char>, Seq<char>)>,
    key: Seq<char>,
    value: Seq<char>,
    other: Seq<char>,
)
    ensures
        lookup(props_insert(ps, key, value), other) == (if other == key {
            Some(value)
        } else {
            lookup(ps, other)
        }),
{
    lemma_key_index(ps, key);
    lemma_key_index(ps, other);
    let qs = props_insert(ps, key, value);
    let i = key_index(ps, key);
    let j = key_index(ps, other);
    if other == key {
        lemma_key_index_unique(qs, other, i);
        lemma_key_index(qs, other);
    } else {
        if j < ps.len() {
            assert(qs[j] == ps[j]);
            lemma_key_index_unique(qs, other, j);
        } else {
            lemma_key_index_unique(qs, other, qs.len() as int);
        }
        lemma_key_index(qs, other);
    }
}

impl ObjectModel {
    pub open spec fn prop(self, key: Seq<char>) -> Option<Seq<char>> {
        lookup(self.props, key)
    }

    /// The first present property among `keys`.
    pub open spec fn first_prop(self, keys: Seq<Seq<char>>) -> Option<Seq<char>>
        decreases keys.len(),
    {
        if keys.len() == 0 {
            None
        } else {
            match self.prop(keys[0]) {
                Some(v) => Some(v),
                None => self.first_prop(keys.drop_first()),
            }
        }
    }

    /// `PwObject::name`.
    pub open spec fn name(self) -> Option<Seq<char>> {
        self.first_prop(
            seq![
                "node.name"@,
                "device.name"@,
                "port.name"@,
                "client.name"@,
                "module.name"@,
                "factory.name"@,
                "link.name"@,
            ],
        )
    }

    /// `PwObject::description`.
    pub open spec fn description(self) -> Option<Seq<char>> {
        self.first_prop(seq!["node.description"@, "device.description"@, "port.alias"@])
    }

    /// `PwObject::display_name`.
    pub open spec fn display_name(self) -> Seq<char> {
        match self.name() {
            Some(n) => n,
            None => if self.object_type == "Link"@ {
                or_question(self.prop("link.output.node"@)) + ":"@ + or_question(
                    self.prop("link.output.port"@),
                ) + " -> "@ + or_question(self.prop("link.input.node"@)) + ":"@ + or_question(
                    self.prop("link.input.port"@),
                )
            } else {
                match self.first_prop(seq!["object.path"@, "object.serial"@]) {
                    Some(v) => v,
                    None => "object-"@ + decimal(self.id as nat),
                }
            },
        }
    }
}

pub open spec fn or_question(o: Option<Seq<char>>) -> Seq<char> {
    match o {
        Some(v) => v,
        None => "?"@,
    }
}

pub open spec fn opt_str_view(o: Option<&str>) -> Option<Seq<char>> {
    match o {
        Some(s) => Some(s@),
        None => None,
    }
}

impl PwObject {
    /// An object with no properties yet.
    pub fn new(id: u32, object_type: String) -> (r: PwObject)
        ensures
            r@.id == id,
            r@.object_type == object_type@,
            r@.props == Seq::<(Seq<char>, Seq<char>)>::empty(),
    {
        let r = PwObject { id, object_type, properties: Vec::new() };
        assert(r@.props =~= Seq::<(Seq<char>, Seq<char>)>::empty());
        r
    }

    /// Get a property value.
    pub fn get(&self, key: &str) -> (r: Option<&str>)
        ensures
            opt_str_view(r) == self@.prop(key@),
    {
        let ghost ps = self@.props;
        let mut i: usize = 0;
        while i < self.properties.len()
            invariant
                i <= self.properties.len(),
                ps == self@.props,
                ps.len() == self.properties.len(),
                forall|j: int| 0 <= j < i ==> ps[j].0 != key@,
            decreases self.properties.len() - i,
        {
            if str_eq(self.properties[i].0.as_str(), key) {
                proof {
                    assert(ps[i as int] == prop_view(self.properties@[i as int]));
                    lemma_key_index_unique(ps, key@, i as int);
                    lemma_key_index(ps, key@);
                }
                return Some(self.properties[i].1.as_str());
            }
            assert(ps[i as int] == prop_view(self.properties@[i as int]));
            i = i + 1;
        }
        proof {
            lemma_key_index_unique(ps, key@, ps.len() as int);
            lemma_key_index(ps, key@);
        }
        None
    }

    /// Set a property: the value of an existing key is replaced, a new key is added.
    pub fn insert_property(&mut self, key: String, value: String)
        ensures
            final(self)@.id == old(self)@.id,
            final(self)@.object_type == old(self)@.object_type,
            final(self)@.props == props_insert(old(self)@.props, key@, value@),
    {
        let ghost ps = self@.props;
        let mut i: usize = 0;
        while i < self.properties.len()
            invariant
                i <= self.properties.len(),
                *self == *old(self),
                ps == self@.props,
                ps.len() == self.properties.len(),
                forall|j: int| 0 <= j < i ==> ps[j].0 != key@,
            decreases self.properties.len() - i,
        {
            assert(ps[i as int] == prop_view(self.properties@[i as int]));
            if str_eq(self.properties[i].0.as_str(), key.as_str()) {
                proof {
                    lemma_key_index_unique(ps, key@, i as int);
                }
                let ghost kv = key@;
                let ghost vv = value@;
                self.properties.set(i, (key, value));
                assert(self@.props =~= ps.update(i as int, (kv, vv)));
                return;
            }
            i = i + 1;
        }
        proof {
            lemma_key_index_unique(ps, key@, ps.len() as int);
        }
        let ghost kv = key@;
        let ghost vv = value@;
        self.properties.push((key, value));
        assert(self@.props =~= ps.push((kv, vv)));
    }

    /// The first present property among `keys`.
    fn first_of(&self, keys: &[&str]) -> (r: Option<&str>)
        ensures
            opt_str_view(r) == self@.first_prop(keys@.map_values(|k: &str| k@)),
    {
        let ghost ks = keys@.map_values(|k: &str| k@);
        let mut i: usize = 0;
        assert(ks.skip(0) == ks);
        while i < keys.len()
            invariant
                i <= keys.len(),
                ks == keys@.map_values(|k: &str| k@),
                self@.first_prop(ks) == self@.first_prop(ks.skip(i as int)),
            decreases keys.len() - i,
        {
            let r = self.get(keys[i]);
            proof {
                let rest = ks.skip(i as int);
                assert(rest[0] == keys@[i as int]@);
                assert(rest.drop_first() == ks.skip(i + 1));
            }
            if r.is_some() {
                return r;
            }
            i = i + 1;
        }
        assert(ks.skip(i as int).len() == 0);
        None
    }

    /// Get the node.name or device.name property (or, in turn, port, client,
    /// module, factory and link name).
    pub fn name(&self) -> (r: Option<&str>)
        ensures
            opt_str_view(r) == self@.name(),
    {
        let keys = [
            "node.name",
            "device.name",
            "port.name",
            "client.name",
            "module.name",
            "factory.name",
            "link.name",
        ];
        let r = self.first_of(&keys);
        assert(keys@.map_values(|k: &str| k@) =~= seq![
            "node.name"@,
            "device.name"@,
            "port.name"@,
            "client.name"@,
            "module.name"@,
            "factory.name"@,
            "link.name"@,
        ]);
        r
    }

    /// Get the node.description, device.description or port.alias property.
    pub fn description(&self) -> (r: Option<&str>)
        ensures
            opt_str_view(r) == self@.description(),
    {
        let keys = ["node.description", "device.description", "port.alias"];
        let r = self.first_of(&keys);
        assert(keys@.map_values(|k: &str| k@) =~= seq![
            "node.description"@,
            "device.description"@,
            "port.alias"@,
        ]);
        r
    }

    /// Get the media.class property.
    pub fn media_class(&self) -> (r: Option<&str>)
        ensures
            opt_str_view(r) == self@.prop("media.class"@),
    {
        self.get("media.class")
    }

    /// Check if this is a specific type (the type name occurs in the object's type).
    pub fn is_type(&self, wanted: &str) -> (b: bool)
        ensures
            b == contains_seq(self@.object_type, wanted@),
    {
        let t = chars_of(self.object_type.as_str());
        let n = chars_of(wanted);
        contains_chars(&t, &n)
    }

    /// Get a display name for any object type; for links, a name built from
    /// the port and node ids.
    pub fn display_name(&self) -> (r: String)
        ensures
            r@ == self@.display_name(),
    {
        if let Some(name) = self.name() {
            return name.to_owned();
        }
        if str_eq(self.object_type.as_str(), "Link") {
            let out_node = or_q(self.get("link.output.node"));
            let out_port = or_q(self.get("link.output.port"));
            let in_node = or_q(self.get("link.input.node"));
            let in_port = or_q(self.get("link.input.port"));
            let mut s = String::new();
            push_str_chars(&mut s, out_node);
            push_str_chars(&mut s, ":");
            push_str_chars(&mut s, out_port);
            push_str_chars(&mut s, " -> ");
            push_str_chars(&mut s, in_node);
            push_str_chars(&mut s, ":");
            push_str_chars(&mut s, in_port);
            return s;
        }
        let keys = ["object.path", "object.serial"];
        let r = self.first_of(&keys);
        assert(keys@.map_values(|k: &str| k@) =~= seq!["object.path"@, "object.serial"@]);
        match r {
            Some(v) => v.to_owned(),
            None => {
                let mut s = String::new();
                push_str_chars(&mut s, "object-");
                push_decimal(&mut s, self.id as u64);
                s
            },
        }
    }
}

fn or_q(o: Option<&str>) -> (r: &str)
    ensures
        r@ == or_question(opt_str_view(o)),
{
    match o {
        Some(s) => s,
        None => "?",
    }
}


/// `pw-cli` type name mapped to its short lower-case name.
pub open spec fn simplify_type_spec(t: Seq<char>) -> Seq<char> {
    if t == "Node"@ {
        "node"@
    } else if t == "Device"@ {
        "device"@
    } else if t == "Port"@ {
        "port"@
    } else if t == "Module"@ {
        "module"@
    } else if t == "Factory"@ {
        "factory"@
    } else if t == "Client"@ {
        "client"@
    } else if t == "Link"@ {
        "link"@
    } else if t == "Core"@ {
        "core"@
    } else if t == "Metadata"@ {
        "metadata"@
    } else {
        "unknown"@
    }
}

/// Map PipeWire object type to simple type name.
pub fn simplify_type(pw_type: &str) -> (r: &'static str)
    ensures
        r@ == simplify_type_spec(pw_type@),
{
    if str_eq(pw_type, "Node") {
        "node"
    } else if str_eq(pw_type, "Device") {
        "device"
    } else if str_eq(pw_type, "Port") {
        "port"
    } else if str_eq(pw_type, "Module") {
        "module"
    } else if str_eq(pw_type, "Factory") {
        "factory"
    } else if str_eq(pw_type, "Client") {
        "client"
    } else if str_eq(pw_type, "Link") {
        "link"
    } else if str_eq(pw_type, "Core") {
        "core"
    } else if str_eq(pw_type, "Metadata") {
        "metadata"
    } else {
        "unknown"
    }
}

/// Index of the first object with `id`, or `objs.len()`.
pub open spec fn id_index(objs: Seq<ObjectModel>, id: u32) -> int
    decreases objs.len(),
{
    if objs.len() == 0 {
        0
    } else if objs[0].id == id {
        0
    } else {
        1 + id_index(objs.drop_first(), id)
    }
}

pub proof fn lemma_id_index(objs: Seq<ObjectModel>, id: u32, k: int)
    requires
        0 <= k <= objs.len(),
        k < objs.len() ==> objs[k].id == id,
        forall|j: int| 0 <= j < k ==> objs[j].id != id,
    ensures
        id_index(objs, id) == k,
    decreases objs.len(),
{
    if k > 0 {
        assert forall|j: int| 0 <= j < k - 1 implies objs.drop_first()[j].id != id by {
            assert(objs.drop_first()[j] == objs[j + 1]);
        }
        if k - 1 < objs.len() - 1 {
            assert(objs.drop_first()[k - 1] == objs[k]);
        }
        lemma_id_index(objs.drop_first(), id, k - 1);
    }
}

pub open spec fn objects_view(objs: Seq<PwObject>) -> Seq<ObjectModel> {
    objs.map_values(|o: PwObject| o@)
}

/// Get a specific object by id: the first object of the listing with that id.
pub fn get_object(objects: &[PwObject], id: u32) -> (r: Option<PwObject>)
    ensures
        ({
            let objs = objects_view(objects@);
            let i = id_index(objs, id);
            match r {
                Some(o) => i < objs.len() && o@ == objs[i],
                None => i == objs.len(),
            }
        }),
{
    let ghost objs = objects_view(objects@);
    let mut i: usize = 0;
    while i < objects.len()
        invariant
            i <= objects.len(),
            objs == objects_view(objects@),
            forall|j: int| 0 <= j < i ==> objs[j].id != id,
        decreases objects.len() - i,
    {
        assert(objs[i as int] == objects@[i as int]@);
        if objects[i].id == id {
            proof {
                lemma_id_index(objs, id, i as int);
            }
            return Some(objects[i].clone_object());
        }
        i = i + 1;
    }
    proof {
        lemma_id_index(objs, id, objs.len() as int);
    }
    None
}

impl PwObject {
    /// A copy of this object.
    pub fn clone_object(&self) -> (r: PwObject)
        ensures
            r@ == self@,
    {
        let mut props: Vec<(String, String)> = Vec::new();
        let mut i: usize = 0;
        while i < self.properties.len()
            invariant
                i <= self.properties.len(),
                props@.len() == i,
                forall|j: int| 0 <= j < i ==> prop_view(#[trigger] props@[j]) == prop_view(
                    self.properties@[j],
                ),
            decreases self.properties.len() - i,
        {
            let k = self.properties[i].0.clone();
            let v = self.properties[i].1.clone();
            props.push((k, v));
            i = i + 1;
        }
        let r = PwObject { id: self.id, object_type: self.object_type.clone(), properties: props };
        assert(r@.props =~= self@.props);
        r
    }
}

pub open spec fn id_chars() -> Seq<char> {
    seq!['i', 'd']
}

pub open spec fn type_chars() -> Seq<char> {
    seq!['t', 'y', 'p', 'e']
}

pub open spec fn interface_chars() -> Seq<char> {
    seq![
        'P', 'i', 'p', 'e', 'W', 'i', 'r', 'e', ':', 'I', 'n', 't', 'e', 'r', 'f', 'a', 'c', 'e', ':',
    ]
}

/// Position after the whitespace that starts at `p` in `s`.
pub open spec fn ws_end(s: Seq<char>, p: int) -> int {
    p + ws_prefix_len(s.skip(p))
}

/// Position after the run of characters satisfying `f` that starts at `p` in `s`.
pub open spec fn run_end(s: Seq<char>, p: int, f: spec_fn(char) -> bool) -> int {
    p + run_len(s.skip(p), f)
}

/// An object header line of `pw-cli ls`:
/// `^\s*id\s+(\d+),\s+type\s+PipeWire:Interface:(\w+)/\d+`.
/// Gives the id (0 when the digits do not fit a `u32`) and the type name.
pub open spec fn header_of(s: Seq<char>) -> Option<(u32, Seq<char>)> {
    let p0 = ws_end(s, 0);
    if !starts_with(s.skip(p0), id_chars()) {
        None
    } else {
        let p1 = p0 + 2;
        let p2 = ws_end(s, p1);
        let p3 = run_end(s, p2, |ch: char| is_digit(ch));
        if p2 == p1 || p3 == p2 || !(p3 < s.len() && s[p3] == ',') {
            None
        } else {
            let p4 = p3 + 1;
            let p5 = ws_end(s, p4);
            if p5 == p4 || !starts_with(s.skip(p5), type_chars()) {
                None
            } else {
                let p6 = p5 + 4;
                let p7 = ws_end(s, p6);
                if p7 == p6 || !starts_with(s.skip(p7), interface_chars()) {
                    None
                } else {
                    let p8 = p7 + 19;
                    let p9 = run_end(s, p8, |ch: char| is_word(ch));
                    if p9 == p8 || !(p9 < s.len() && s[p9] == '/') || run_end(
                        s,
                        p9 + 1,
                        |ch: char| is_digit(ch),
                    ) == p9 + 1 {
                        None
                    } else {
                        let id = match parse_u32_spec(s.subrange(p2, p3)) {
                            Some(n) => n,
                            None => 0u32,
                        };
                        Some((id, s.subrange(p8, p9)))
                    }
                }
            }
        }
    }
}

/// The value part of a property line, after the whitespace that follows `=`:
/// `"?([^"]*)"?\s*$`.
pub open spec fn prop_value_of(r: Seq<char>) -> Option<Seq<char>> {
    let r1 = if r.len() > 0 && r[0] == '"' { r.drop_first() } else { r };
    let j = first_index_of(r1, '"');
    if j >= r1.len() {
        Some(r1)
    } else if all_ws(r1.skip(j + 1)) {
        Some(r1.take(j))
    } else {
        None
    }
}

/// A property line of `pw-cli ls`: `^\s+(\S+)\s+=\s+"?([^"]*)"?\s*$`.
pub open spec fn property_of(s: Seq<char>) -> Option<(Seq<char>, Seq<char>)> {
    let p0 = ws_end(s, 0);
    let p1 = run_end(s, p0, |ch: char| !is_ws(ch));
    let p2 = ws_end(s, p1);
    if p0 == 0 || p1 == p0 || p2 == p1 || !(p2 < s.len() && s[p2] == '=') {
        None
    } else {
        let p3 = p2 + 1;
        let p4 = ws_end(s, p3);
        if p4 == p3 {
            None
        } else {
            match prop_value_of(s.skip(p4)) {
                Some(v) => Some((s.subrange(p0, p1), v)),
                None => None,
            }
        }
    }
}

/// Parser state after some lines: finished objects and the object being read.
pub open spec fn ls_step(
    st: (Seq<ObjectModel>, Option<ObjectModel>),
    l: Seq<char>,
) -> (Seq<ObjectModel>, Option<ObjectModel>) {
    match header_of(l) {
        Some((id, t)) => {
            let done = match st.1 {
                Some(o) => st.0.push(o),
                None => st.0,
            };
            (done, Some(ObjectModel { id, object_type: t, props: Seq::empty() }))
        },
        None => match property_of(l) {
            Some((k, v)) => match st.1 {
                Some(o) => (
                    st.0,
                    Some(ObjectModel { props: props_insert(o.props, k, v), ..o }),
                ),
                None => st,
            },
            None => st,
        },
    }
}

pub open spec fn ls_fold(ls: Seq<Seq<char>>) -> (Seq<ObjectModel>, Option<ObjectModel>)
    decreases ls.len(),
{
    if ls.len() == 0 {
        (Seq::empty(), None)
    } else {
        ls_step(ls_fold(ls.drop_last()), ls.last())
    }
}

/// The objects that a `pw-cli ls` listing describes.
pub open spec fn parse_ls_spec(output: Seq<char>) -> Seq<ObjectModel> {
    let st = ls_fold(lines(output));
    match st.1 {
        Some(o) => st.0.push(o),
        None => st.0,
    }
}


pub open spec fn header_view(r: Option<(u32, String)>) -> Option<(u32, Seq<char>)> {
    match r {
        Some((id, t)) => Some((id, t@)),
        None => None,
    }
}

pub open spec fn pair_view(r: Option<(String, String)>) -> Option<(Seq<char>, Seq<char>)> {
    match r {
        Some((k, v)) => Some((k@, v@)),
        None => None,
    }
}

/// Recognizes an object header line; see [`header_of`].
pub fn match_header(l: &[char]) -> (r: Option<(u32, String)>)
    ensures
        header_view(r) == header_of(l@),
{
    let p0 = scan_ws(l, 0);
    let idc = ['i', 'd'];
    assert(idc@ == id_chars());
    if !has_prefix_at(l, p0, &idc) {
        return None;
    }
    let p1 = p0 + 2;
    let p2 = scan_ws(l, p1);
    let p3 = scan_digits(l, p2);
    if p2 == p1 || p3 == p2 || !(p3 < l.len() && l[p3] == ',') {
        return None;
    }
    let p4 = p3 + 1;
    let p5 = scan_ws(l, p4);
    let tyc = ['t', 'y', 'p', 'e'];
    assert(tyc@ == type_chars());
    if p5 == p4 || !has_prefix_at(l, p5, &tyc) {
        return None;
    }
    let p6 = p5 + 4;
    let p7 = scan_ws(l, p6);
    let ifc = [
        'P', 'i', 'p', 'e', 'W', 'i', 'r', 'e', ':', 'I', 'n', 't', 'e', 'r', 'f', 'a', 'c', 'e', ':',
    ];
    assert(ifc@ == interface_chars());
    if p7 == p6 || !has_prefix_at(l, p7, &ifc) {
        return None;
    }
    let p8 = p7 + 19;
    let p9 = scan_word(l, p8);
    if p9 == p8 || !(p9 < l.len() && l[p9] == '/') {
        return None;
    }
    let p10 = scan_digits(l, p9 + 1);
    if p10 == p9 + 1 {
        return None;
    }
    let id = match parse_u32_range(l, p2, p3) {
        Some(n) => n,
        None => 0u32,
    };
    let t = string_from_range(l, p8, p9);
    Some((id, t))
}

/// Recognizes a property line; see [`property_of`].
pub fn match_property(l: &[char]) -> (r: Option<(String, String)>)
    ensures
        pair_view(r) == property_of(l@),
{
    let ghost s = l@;
    let p0 = scan_ws(l, 0);
    let p1 = scan_nonws(l, p0);
    let p2 = scan_ws(l, p1);
    if p0 == 0 || p1 == p0 || p2 == p1 || !(p2 < l.len() && l[p2] == '=') {
        return None;
    }
    let p3 = p2 + 1;
    let p4 = scan_ws(l, p3);
    if p4 == p3 {
        return None;
    }
    let value = match_value(l, p4);
    match value {
        Some(v) => {
            let key = string_from_range(l, p0, p1);
            Some((key, v))
        },
        None => None,
    }
}

/// Recognizes the value part of a property line; see [`prop_value_of`].
fn match_value(l: &[char], p4: usize) -> (r: Option<String>)
    requires
        p4 <= l.len(),
    ensures
        match r {
            Some(v) => prop_value_of(l@.skip(p4 as int)) == Some(v@),
            None => prop_value_of(l@.skip(p4 as int)) is None,
        },
{
    let ghost s = l@;
    let ghost r = s.skip(p4 as int);
    let vs = if p4 < l.len() && l[p4] == '"' { p4 + 1 } else { p4 };
    let ghost r1 = if r.len() > 0 && r[0] == '"' { r.drop_first() } else { r };
    assert(r1 == s.subrange(vs as int, l.len() as int));
    let j = find_char(l, vs, l.len(), '"');
    if j == l.len() {
        return Some(string_from_range(l, vs, l.len()));
    }
    let e = skip_ws(l, j + 1, l.len());
    proof {
        let t = s.subrange(j + 1, l.len() as int);
        assert(t == r1.skip(j - vs + 1));
        lemma_ws_prefix(t);
        if e == l.len() {
            assert forall|q: int| 0 <= q < t.len() implies is_ws(#[trigger] t[q]) by {
                assert(t.take(ws_prefix_len(t) as int)[q] == t[q]);
            }
        } else {
            assert(!is_ws(t[e - (j + 1)]));
        }
    }
    if e < l.len() {
        return None;
    }
    assert(r1.take(j - vs) == s.subrange(vs as int, j as int));
    Some(string_from_range(l, vs, j))
}


pub open spec fn state_view(
    objs: Seq<PwObject>,
    cur: Option<PwObject>,
) -> (Seq<ObjectModel>, Option<ObjectModel>) {
    (
        objects_view(objs),
        match cur {
            Some(o) => Some(o@),
            None => None,
        },
    )
}

/// Parse `pw-cli ls` output into objects.
///
/// Format:
/// ```text
///         id 38, type PipeWire:Interface:Node/3
///                 object.serial = "38"
///                 node.name = "effect_input.proc"
/// ```
pub fn parse_pwcli_ls(output: &str) -> (r: Result<Vec<PwObject>, String>)
    ensures
        r is Ok,
        r matches Ok(objs) ==> objects_view(objs@) == parse_ls_spec(output@),
{
    let text = chars_of(output);
    let ls = split_lines(&text);
    let mut objects: Vec<PwObject> = Vec::new();
    let mut current: Option<PwObject> = None;
    let ghost all = lines(output@);
    let mut i: usize = 0;
    while i < ls.len()
        invariant
            i <= ls.len(),
            all == lines(output@),
            ls@.len() == all.len(),
            forall|j: int| 0 <= j < ls@.len() ==> (#[trigger] ls@[j])@ == all[j],
            state_view(objects@, current) == ls_fold(all.take(i as int)),
        decreases ls.len() - i,
    {
        let line = &ls[i];
        proof {
            assert(all.take(i + 1).drop_last() == all.take(i as int));
            assert(all.take(i + 1).last() == line@);
        }
        let ghost before = state_view(objects@, current);
        match match_header(line.as_slice()) {
            Some((id, t)) => {
                let prev = current.take();
                match prev {
                    Some(o) => {
                        objects.push(o);
                    },
                    None => {},
                }
                let fresh = PwObject::new(id, t);
                current = Some(fresh);
                proof {
                    assert(objects_view(objects@) == ls_step(before, line@).0);
                }
            },
            None => {
                match match_property(line.as_slice()) {
                    Some((k, v)) => {
                        match current {
                            Some(ref mut o) => {
                                o.insert_property(k, v);
                            },
                            None => {},
                        }
                    },
                    None => {},
                }
            },
        }
        i = i + 1;
    }
    assert(all.take(ls.len() as int) == all);
    match current {
        Some(o) => {
            objects.push(o);
        },
        None => {},
    }
    Ok(objects)
}

/// One step of a filter: the filter of a prefix one longer.
pub proof fn lemma_filter_step<A>(s: Seq<A>, i: int, p: spec_fn(A) -> bool)
    requires
        0 <= i < s.len(),
    ensures
        s.subrange(0, i + 1).filter(p) == if p(s[i]) {
            s.subrange(0, i).filter(p).push(s[i])
        } else {
            s.subrange(0, i).filter(p)
        },
{
    reveal(Seq::filter);
    assert(s.subrange(0, i + 1).drop_last() =~= s.subrange(0, i));
}

/// Objects of type `filter`, or all objects where no type is given.
pub open spec fn of_type(filter: Option<Seq<char>>) -> spec_fn(ObjectModel) -> bool {
    |o: ObjectModel|
        match filter {
            Some(t) => o.object_type == t,
            None => true,
        }
}

/// The objects of a `pw-cli ls` listing, only those of type `filter` where
/// one is given (`Node`, `Device`, `Port`, `Module`, `Factory`, `Client`,
/// `Link`, ...), in listing order.
pub fn list_objects(listing: &str, filter: Option<&str>) -> (r: Result<Vec<PwObject>, String>)
    ensures
        r matches Ok(v) && objects_view(v@) == parse_ls_spec(listing@).filter(of_type(opt_str_view(filter))),
{
    let all = match parse_pwcli_ls(listing) {
        Ok(v) => v,
        Err(e) => {
            return Err(e);
        },
    };
    let ghost objs = objects_view(all@);
    let ghost p = of_type(opt_str_view(filter));
    let mut out: Vec<PwObject> = Vec::new();
    let mut i: usize = 0;
    while i < all.len()
        invariant
            i <= all.len(),
            objs == objects_view(all@),
            p == of_type(opt_str_view(filter)),
            objects_view(out@) == objs.subrange(0, i as int).filter(p),
        decreases all.len() - i,
    {
        proof {
            lemma_filter_step(objs, i as int, p);
        }
        assert(objs[i as int] == all@[i as int]@);
        let keep = match filter {
            Some(t) => str_eq(all[i].object_type.as_str(), t),
            None => true,
        };
        if keep {
            let ghost before = objects_view(out@);
            out.push(all[i].clone_object());
            assert(objects_view(out@) =~= before.push(objs[i as int]));
        }
        i = i + 1;
    }
    assert(objs.subrange(0, objs.len() as int) =~= objs);
    Ok(out)
}

/// All objects of a `pw-cli ls` listing.
pub fn list_all(listing: &str) -> (r: Result<Vec<PwObject>, String>)
    ensures
        r matches Ok(v) && objects_view(v@) == parse_ls_spec(listing@).filter(of_type(None)),
{
    list_objects(listing, None)
}

/// The nodes of a `pw-cli ls` listing.
pub fn list_nodes(listing: &str) -> (r: Result<Vec<PwObject>, String>)
    ensures
        r matches Ok(v) && objects_view(v@) == parse_ls_spec(listing@).filter(of_type(Some(TYPE_NODE@))),
{
    list_objects(listing, Some(TYPE_NODE))
}

/// The devices of a `pw-cli ls` listing.
pub fn list_devices(listing: &str) -> (r: Result<Vec<PwObject>, String>)
    ensures
        r matches Ok(v) && objects_view(v@) == parse_ls_spec(listing@).filter(of_type(Some(TYPE_DEVICE@))),
{
    list_objects(listing, Some(TYPE_DEVICE))
}

/// The ports of a `pw-cli ls` listing.
pub fn list_ports(listing: &str) -> (r: Result<Vec<PwObject>, String>)
    ensures
        r matches Ok(v) && objects_view(v@) == parse_ls_spec(listing@).filter(of_type(Some(TYPE_PORT@))),
{
    list_objects(listing, Some(TYPE_PORT))
}

/// The modules of a `pw-cli ls` listing.
pub fn list_modules(listing: &str) -> (r: Result<Vec<PwObject>, String>)
    ensures
        r matches Ok(v) && objects_view(v@) == parse_ls_spec(listing@).filter(of_type(Some(TYPE_MODULE@))),
{
    list_objects(listing, Some(TYPE_MODULE))
}

/// The factories of a `pw-cli ls` listing.
pub fn list_factories(listing: &str) -> (r: Result<Vec<PwObject>, String>)
    ensures
        r matches Ok(v) && objects_view(v@) == parse_ls_spec(listing@).filter(of_type(Some(TYPE_FACTORY@))),
{
    list_objects(listing, Some(TYPE_FACTORY))
}

/// The clients of a `pw-cli ls` listing.
pub fn list_clients(listing: &str) -> (r: Result<Vec<PwObject>, String>)
    ensures
        r matches Ok(v) && objects_view(v@) == parse_ls_spec(listing@).filter(of_type(Some(TYPE_CLIENT@))),
{
    list_objects(listing, Some(TYPE_CLIENT))
}

/// The links of a `pw-cli ls` listing.
pub fn list_links(listing: &str) -> (r: Result<Vec<PwObject>, String>)
    ensures
        r matches Ok(v) && objects_view(v@) == parse_ls_spec(listing@).filter(of_type(Some(TYPE_LINK@))),
{
    list_objects(listing, Some(TYPE_LINK))
}

} // verus!
