//! Link rules from the configuration files.
use vstd::prelude::*;
use crate::linker::{LinkRule, RuleModel, rules_view};

verus! {

/// The rules a configuration file gave, or none where it is missing or could
/// not be read or parsed.
pub open spec fn loaded(rules: Option<Vec<LinkRule>>) -> Seq<RuleModel> {
    match rules {
        Some(rs) => rules_view(rs@),
        None => seq![],
    }
}

/// All link rules: those of the system's configuration file, then those of
/// the user's, which are loaded after them (`None` for a file that is
/// missing or failed to load).
pub fn load_all_link_rules(user: Option<Vec<LinkRule>>, system: Option<Vec<LinkRule>>) -> (r: Vec<LinkRule>)
    ensures
        rules_view(r@) == loaded(system) + loaded(user),
{
    let ghost u = loaded(user);
    let ghost s = loaded(system);
    let mut all: Vec<LinkRule> = match system {
        Some(rs) => rs,
        None => Vec::new(),
    };
    assert(rules_view(all@) =~= s);
    match user {
        Some(mut rs) => {
            all.append(&mut rs);
        },
        None => {},
    }
    assert(rules_view(all@) =~= s + u);
    all
}

} // verus!
