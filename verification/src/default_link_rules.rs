//! The link rules that apply when no configuration gives any.
use vstd::prelude::*;
use crate::linker::{IdentifierModel, LinkRule, LinkType, LogLevel, NodeIdentifier, RuleModel, rules_view};

verus! {

/// The default rule: link any SpeakerEQ output to the HiFiBerry playback device.
pub open spec fn speakereq_rule() -> RuleModel {
    RuleModel {
        name: "SpeakerEQ to HiFiBerry"@,
        source: IdentifierModel {
            node_name: Some("^speakereq.x.\\.output$"@),
            node_nick: None,
            object_path: None,
        },
        destination: IdentifierModel {
            node_name: None,
            node_nick: None,
            object_path: Some("alsa:.*:sndrpihifiberry:.*:playback"@),
        },
        link_type: LinkType::Link,
        link_at_startup: true,
        relink_every: 0,
        info_level: LogLevel::Info,
        error_level: LogLevel::Error,
    }
}

/// Get the default link rules for automatic connection.
pub fn get_default_rules() -> (r: Vec<LinkRule>)
    ensures
        rules_view(r@) == seq![speakereq_rule()],
{
    let rule = LinkRule {
        name: "SpeakerEQ to HiFiBerry".to_owned(),
        source: NodeIdentifier {
            node_name: Some("^speakereq.x.\\.output$".to_owned()),
            node_nick: None,
            object_path: None,
        },
        destination: NodeIdentifier {
            node_name: None,
            node_nick: None,
            object_path: Some("alsa:.*:sndrpihifiberry:.*:playback".to_owned()),
        },
        link_type: LinkType::Link,
        link_at_startup: true,
        relink_every: 0,
        info_level: LogLevel::Info,
        error_level: LogLevel::Error,
    };
    let mut rules: Vec<LinkRule> = Vec::new();
    rules.push(rule);
    assert(rules_view(rules@) =~= seq![speakereq_rule()]);
    rules
}

} // verus!
