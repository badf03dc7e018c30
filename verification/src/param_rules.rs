//! Which nodes a parameter rule applies to.
use vstd::prelude::*;
use crate::linker::opt_view;
use crate::pwcli::{PwObject, opt_str_view};
use crate::util::regex_match_spec;

verus! {

/// Patterns that a node's name and object path must match.
#[derive(Debug, Clone)]
pub struct NodeMatcher {
    pub node_name: Option<String>,
    pub object_path: Option<String>,
}

/// Model of a [`NodeMatcher`].
pub struct MatcherModel {
    pub node_name: Option<Seq<char>>,
    pub object_path: Option<Seq<char>>,
}

impl View for NodeMatcher {
    type V = MatcherModel;

    open spec fn view(&self) -> MatcherModel {
        MatcherModel { node_name: opt_view(self.node_name), object_path: opt_view(self.object_path) }
    }
}

/// A pattern that is given must be matched by a value that is present.
pub open spec fn meets(pattern: Option<Seq<char>>, value: Option<Seq<char>>) -> bool {
    match pattern {
        None => true,
        Some(p) => match value {
            Some(v) => regex_match_spec(p, v),
            None => false,
        },
    }
}

/// A node with this name and object path meets every pattern the matcher
/// gives; a matcher with no pattern accepts every node.
pub open spec fn matcher_accepts(m: MatcherModel, name: Option<Seq<char>>, path: Option<Seq<char>>) -> bool {
    meets(m.node_name, name) && meets(m.object_path, path)
}

fn meets_pattern(pattern: &Option<String>, value: Option<&str>) -> (r: bool)
    ensures
        r == meets(opt_view(*pattern), opt_str_view(value)),
{
    match (pattern, value) {
        (None, _) => true,
        (Some(p), Some(v)) => crate::util::regex_match(p.as_str(), v),
        (Some(_), None) => false,
    }
}

/// Check if a node matches the matcher: each given pattern (a regex) matches
/// the node's corresponding property, which must be present; an invalid
/// pattern matches nothing.
pub fn node_matches(node: &PwObject, matcher: &NodeMatcher) -> (r: bool)
    ensures
        r == matcher_accepts(matcher@, node@.prop("node.name"@), node@.prop("object.path"@)),
{
    meets_pattern(&matcher.node_name, node.get("node.name")) && meets_pattern(
        &matcher.object_path,
        node.get("object.path"),
    )
}

} // verus!
