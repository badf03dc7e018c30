use pw_api::api_server::AppState;
use pw_api::api_types::{filter_by_type, registry_object, RegistryType};
use pw_api::default_link_rules::get_default_rules;
use pw_api::link_manager_cli::LinkRuleResult;
use pw_api::link_scheduler::{record_run, should_apply, startup_rule_indices, summarize};
use pw_api::links::{apply_rule_response, batch_response, name_links, registry_link};

fn result(success: bool, message: &str) -> LinkRuleResult {
    LinkRuleResult { success, message: message.to_string() }
}

fn props(pairs: &[(&str, &str)]) -> Vec<(String, String)> {
    pairs.iter().map(|(k, v)| (k.to_string(), v.to_string())).collect()
}

#[test]
fn rules_are_due_at_startup_and_after_their_interval() {
    let mut rule = get_default_rules().remove(0);
    assert!(should_apply(&rule, None));
    assert!(!should_apply(&rule, Some(1000)));
    rule.relink_every = 10;
    assert!(!should_apply(&rule, Some(9)));
    assert!(should_apply(&rule, Some(10)));
    rule.link_at_startup = false;
    assert!(!should_apply(&rule, None));
}

#[test]
fn run_summary_counts_and_joins_failures() {
    let s = summarize(&[result(true, "Created link: a -> b"), result(false, "x failed"), result(false, "y failed")]);
    assert_eq!((s.succeeded, s.failed), (1, 2));
    assert_eq!(s.error.as_deref(), Some("x failed; y failed"));
    let s = summarize(&[result(true, "ok")]);
    assert_eq!((s.succeeded, s.failed), (1, 0));
    assert!(s.error.is_none());
}

#[test]
fn runs_are_recorded_in_the_rule_status() {
    let mut state = AppState::new();
    record_run(&mut state, 0, &Ok(vec![result(true, "ok"), result(false, "bad")]));
    let s = state.get_rule_status(0).unwrap();
    assert_eq!((s.links_created, s.links_failed, s.total_runs), (1, 1, 1));
    assert_eq!(s.last_error.as_deref(), Some("bad"));
    record_run(&mut state, 0, &Err("No source nodes found matching criteria".to_string()));
    let s = state.get_rule_status(0).unwrap();
    assert_eq!((s.links_created, s.links_failed, s.total_runs), (0, 0, 2));
    assert_eq!(s.last_error.as_deref(), Some("No source nodes found matching criteria"));
}

#[test]
fn startup_rules_are_those_linking_at_startup() {
    let mut rules = get_default_rules();
    let mut second = get_default_rules().remove(0);
    second.link_at_startup = false;
    rules.push(second);
    rules.push(get_default_rules().remove(0));
    assert_eq!(startup_rule_indices(&rules), vec![0, 2]);
}

#[test]
fn batch_answers_number_rules_from_one() {
    let outcomes = vec![Ok(vec!["linked a".to_string(), "linked b".to_string()]), Ok(vec![]), Err("no client".to_string())];
    let r = batch_response("Rule", &outcomes);
    assert_eq!((r.total, r.successful, r.failed), (3, 2, 1));
    assert_eq!(r.results[0].message, "Rule 1: linked a; linked b");
    assert_eq!(r.results[1].message, "Rule 2 applied successfully");
    assert_eq!(r.results[2].message, "Rule 3 failed: no client");
    assert!(!r.results[2].success);
    let d = batch_response("Default rule", &outcomes[1..2]);
    assert_eq!(d.results[0].message, "Default rule 1 applied successfully");
    assert_eq!(apply_rule_response(&[]).message, "Link rule applied");
    assert_eq!(apply_rule_response(&["a".to_string(), "b".to_string()]).message, "a; b");
}

#[test]
fn registry_links_and_objects() {
    let link = registry_link(
        90,
        &props(&[("link.output.node", "38"), ("link.output.port", "39"), ("link.input.node", "81"), ("link.input.port", "x")]),
    );
    assert_eq!((link.output_node_id, link.output_port_id, link.input_node_id, link.input_port_id), (38, 39, 81, 0));
    let named = name_links(vec![link], &[(38, "old".to_string()), (81, "sink".to_string()), (38, "effect".to_string())]);
    assert_eq!(named[0].output_node_name.as_deref(), Some("effect"));
    assert_eq!(named[0].input_node_name.as_deref(), Some("sink"));
    let o = registry_object(5, RegistryType::Device, &props(&[("object.path", "alsa:pcm"), ("device.name", "card")]));
    assert_eq!((o.name.as_str(), o.object_type.as_str()), ("card", "device"));
    let u = registry_object(6, RegistryType::Other, &[]);
    assert_eq!((u.name.as_str(), u.object_type.as_str()), ("unknown", "other"));
    let only_devices = filter_by_type(vec![o, u], "device");
    assert_eq!(only_devices.len(), 1);
    assert_eq!(only_devices[0].id, 5);
}
