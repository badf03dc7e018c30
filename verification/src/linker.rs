//! Link rules: which nodes to connect, and how a rule identifies a node.
use vstd::prelude::*;
use crate::pwcli::{lookup, prop_view};
use crate::util::{regex_compiles, regex_finds, regex_match, regex_match_spec, regex_search};
use crate::text::chars_of;

verus! {

/// Log level for rule execution messages.
#[derive(Debug, Clone, Copy, PartialEq, Eq, Structural)]
pub enum LogLevel {
    Debug,
    Info,
    Warn,
    Error,
}

impl Default for LogLevel {
    fn default() -> (r: Self)
        ensures
            r == LogLevel::Info,
    {
        LogLevel::Info
    }
}

/// Default log level for errors.
pub fn default_error_level() -> (r: LogLevel)
    ensures
        r == LogLevel::Error,
{
    LogLevel::Error
}

/// Default for whether a rule is applied at startup.
pub fn default_link_at_startup() -> (r: bool)
    ensures
        r,
{
    true
}

/// Link operation type.
#[derive(Debug, Clone, Copy, PartialEq, Eq, Structural)]
pub enum LinkType {
    Link,
    Unlink,
}

/// Node identifier: patterns on node.name, node.nick or object.path, each a
/// regex or, where it is no valid regex, a `*` wildcard pattern.
#[derive(Debug, Clone)]
pub struct NodeIdentifier {
    pub node_name: Option<String>,
    pub node_nick: Option<String>,
    pub object_path: Option<String>,
}

/// Model of a [`NodeIdentifier`].
pub struct IdentifierModel {
    pub node_name: Option<Seq<char>>,
    pub node_nick: Option<Seq<char>>,
    pub object_path: Option<Seq<char>>,
}

pub open spec fn opt_view(o: Option<String>) -> Option<Seq<char>> {
    match o {
        Some(s) => Some(s@),
        None => None,
    }
}

impl View for NodeIdentifier {
    type V = IdentifierModel;

    open spec fn view(&self) -> IdentifierModel {
        IdentifierModel {
            node_name: opt_view(self.node_name),
            node_nick: opt_view(self.node_nick),
            object_path: opt_view(self.object_path),
        }
    }
}

/// A wildcard pattern read as a regex body: each `*` stands for any
/// sequence of characters (`.*`); every other character is kept.
pub open spec fn wildcard_body(p: Seq<char>) -> Seq<char>
    decreases p.len(),
{
    if p.len() == 0 {
        seq![]
    } else {
        wildcard_body(p.drop_last()) + if p.last() == '*' {
            seq!['.', '*']
        } else {
            seq![p.last()]
        }
    }
}

/// The regex of a wildcard pattern, anchored at both ends.
pub open spec fn wildcard_regex(p: Seq<char>) -> Seq<char> {
    seq!['^'] + wildcard_body(p) + seq!['$']
}

/// An identifier pattern matches a value: a pattern that is a valid regex
/// matches as that regex; one that is not (such as `*speaker*`, with a
/// leading `*`) is read as a wildcard pattern, which must match the whole
/// value.
pub open spec fn identifier_pattern_matches(p: Seq<char>, v: Seq<char>) -> bool {
    if regex_compiles(p) {
        regex_finds(p, v)
    } else {
        regex_match_spec(wildcard_regex(p), v)
    }
}

/// A pattern that is present matches a value that is present.
pub open spec fn field_matches(pattern: Option<Seq<char>>, value: Option<Seq<char>>) -> bool {
    match (pattern, value) {
        (Some(p), Some(v)) => identifier_pattern_matches(p, v),
        _ => false,
    }
}

/// The anchored regex of a wildcard pattern: `*` becomes `.*`.
pub fn wildcard_to_regex(pattern: &str) -> (r: String)
    ensures
        r@ == wildcard_regex(pattern@),
{
    let cs = chars_of(pattern);
    let mut r = String::new();
    r.push('^');
    let mut i: usize = 0;
    while i < cs.len()
        invariant
            i <= cs.len(),
            cs@ == pattern@,
            r@ == seq!['^'] + wildcard_body(cs@.take(i as int)),
        decreases cs.len() - i,
    {
        assert(cs@.take(i + 1).drop_last() =~= cs@.take(i as int));
        assert(cs@.take(i + 1).last() == cs@[i as int]);
        let ghost before = r@;
        if cs[i] == '*' {
            r.push('.');
            r.push('*');
        } else {
            r.push(cs[i]);
        }
        assert(r@ =~= seq!['^'] + wildcard_body(cs@.take(i + 1)));
        i = i + 1;
    }
    assert(cs@.take(cs.len() as int) =~= cs@);
    r.push('$');
    r
}

/// Whether an identifier pattern matches a value: as a regex where it is
/// one, else as a wildcard pattern over the whole value.
pub fn identifier_match(pattern: &str, value: &str) -> (r: bool)
    ensures
        r == identifier_pattern_matches(pattern@, value@),
{
    match regex_search(pattern, value) {
        Some(found) => found,
        None => {
            let re = wildcard_to_regex(pattern);
            regex_match(re.as_str(), value)
        },
    }
}

/// A node with these node.name, node.nick and object.path values matches the
/// identifier when any one of the identifier's patterns matches its value.
pub open spec fn identifier_matches(
    id: IdentifierModel,
    name: Option<Seq<char>>,
    nick: Option<Seq<char>>,
    path: Option<Seq<char>>,
) -> bool {
    ||| field_matches(id.node_name, name)
    ||| field_matches(id.node_nick, nick)
    ||| field_matches(id.object_path, path)
}

/// Whether an optional pattern matches an optional value.
pub fn match_field(pattern: &Option<String>, value: Option<&str>) -> (r: bool)
    ensures
        r == field_matches(opt_view(*pattern), crate::pwcli::opt_str_view(value)),
{
    match (pattern, value) {
        (Some(p), Some(v)) => identifier_match(p.as_str(), v),
        _ => false,
    }
}

pub open spec fn props_view(ps: Seq<(String, String)>) -> Seq<(Seq<char>, Seq<char>)> {
    ps.map_values(|p: (String, String)| prop_view(p))
}

impl NodeIdentifier {
    /// Check if a node, given by its properties, matches this identifier.
    pub fn matches_properties(&self, props: &[(String, String)]) -> (r: bool)
        ensures
            r == identifier_matches(
                self@,
                lookup(props_view(props@), "node.name"@),
                lookup(props_view(props@), "node.nick"@),
                lookup(props_view(props@), "object.path"@),
            ),
    {
        match_field(&self.node_name, prop_get(props, "node.name"))
            || match_field(&self.node_nick, prop_get(props, "node.nick"))
            || match_field(&self.object_path, prop_get(props, "object.path"))
    }
}

/// Value of `key` in a property list (its first entry).
pub fn prop_get<'a>(props: &'a [(String, String)], key: &str) -> (r: Option<&'a str>)
    ensures
        crate::pwcli::opt_str_view(r) == lookup(props_view(props@), key@),
{
    let ghost ps = props_view(props@);
    let mut i: usize = 0;
    while i < props.len()
        invariant
            i <= props.len(),
            ps == props_view(props@),
            forall|j: int| 0 <= j < i ==> ps[j].0 != key@,
        decreases props.len() - i,
    {
        assert(ps[i as int] == prop_view(props@[i as int]));
        if crate::pwcli::str_eq(props[i].0.as_str(), key) {
            proof {
                crate::pwcli::lemma_key_index_unique(ps, key@, i as int);
                crate::pwcli::lemma_key_index(ps, key@);
            }
            return Some(props[i].1.as_str());
        }
        i = i + 1;
    }
    proof {
        crate::pwcli::lemma_key_index_unique(ps, key@, ps.len() as int);
        crate::pwcli::lemma_key_index(ps, key@);
    }
    None
}

/// A link rule.
#[derive(Debug, Clone)]
pub struct LinkRule {
    /// Name of the link rule (used for the created link objects).
    pub name: String,
    pub source: NodeIdentifier,
    pub destination: NodeIdentifier,
    pub link_type: LinkType,
    /// Whether to apply this rule at startup.
    pub link_at_startup: bool,
    /// How often to check and relink in seconds; 0 = link once only.
    pub relink_every: u64,
    /// Log level for normal operations.
    pub info_level: LogLevel,
    /// Log level for errors.
    pub error_level: LogLevel,
}

/// Model of a [`LinkRule`].
pub struct RuleModel {
    pub name: Seq<char>,
    pub source: IdentifierModel,
    pub destination: IdentifierModel,
    pub link_type: LinkType,
    pub link_at_startup: bool,
    pub relink_every: u64,
    pub info_level: LogLevel,
    pub error_level: LogLevel,
}

impl View for LinkRule {
    type V = RuleModel;

    open spec fn view(&self) -> RuleModel {
        RuleModel {
            name: self.name@,
            source: self.source@,
            destination: self.destination@,
            link_type: self.link_type,
            link_at_startup: self.link_at_startup,
            relink_every: self.relink_every,
            info_level: self.info_level,
            error_level: self.error_level,
        }
    }
}

fn clone_opt(o: &Option<String>) -> (r: Option<String>)
    ensures
        opt_view(r) == opt_view(*o),
{
    match o {
        Some(s) => Some(s.clone()),
        None => None,
    }
}

impl NodeIdentifier {
    /// A copy of this identifier.
    pub fn clone_identifier(&self) -> (r: NodeIdentifier)
        ensures
            r@ == self@,
    {
        NodeIdentifier {
            node_name: clone_opt(&self.node_name),
            node_nick: clone_opt(&self.node_nick),
            object_path: clone_opt(&self.object_path),
        }
    }
}

impl LinkRule {
    /// A copy of this rule.
    pub fn clone_rule(&self) -> (r: LinkRule)
        ensures
            r@ == self@,
    {
        LinkRule {
            name: self.name.clone(),
            source: self.source.clone_identifier(),
            destination: self.destination.clone_identifier(),
            link_type: self.link_type,
            link_at_startup: self.link_at_startup,
            relink_every: self.relink_every,
            info_level: self.info_level,
            error_level: self.error_level,
        }
    }
}

pub open spec fn rules_view(rs: Seq<LinkRule>) -> Seq<RuleModel> {
    rs.map_values(|r: LinkRule| r@)
}

/// A copy of a list of rules.
pub fn clone_rules(rules: &[LinkRule]) -> (r: Vec<LinkRule>)
    ensures
        rules_view(r@) == rules_view(rules@),
{
    let mut out: Vec<LinkRule> = Vec::new();
    let mut i: usize = 0;
    while i < rules.len()
        invariant
            i <= rules.len(),
            out@.len() == i,
            forall|j: int| 0 <= j < i ==> (#[trigger] out@[j])@ == rules@[j]@,
        decreases rules.len() - i,
    {
        out.push(rules[i].clone_rule());
        i = i + 1;
    }
    assert(rules_view(out@) =~= rules_view(rules@));
    out
}

} // verus!
