use pw_api::api_server::AppState;
use pw_api::config::load_all_link_rules;
use pw_api::default_link_rules::get_default_rules;
use pw_api::pwcli::{list_nodes, list_objects};
use pw_api::settings::{drops_module_data, AutoSaveAction, AutoSaveState, ResetResponse, RestoreResponse, SaveResponse};

const LISTING: &str = r#"
	id 38, type PipeWire:Interface:Node/3
 		node.name = "effect_input.proc"
	id 67, type PipeWire:Interface:Device/3
 		device.name = "alsa_card.0"
	id 70, type PipeWire:Interface:Node/3
 		node.name = "effect_input.proc"
	id 80, type PipeWire:Interface:Client/3
"#;

#[test]
fn app_state_object_cache() {
    let mut state = AppState::new();
    assert!(state.get_cached_objects().is_empty());
    state.refresh_object_cache(LISTING).unwrap();
    assert_eq!(state.get_cached_objects().len(), 4);
    assert_eq!(state.get_object_by_id(67).unwrap().object_type, "Device");
    assert!(state.get_object_by_id(1).is_none());
    let nodes: Vec<u32> = state.get_objects_by_type("node").iter().map(|o| o.id).collect();
    assert_eq!(nodes, vec![38, 70]);
    assert!(state.get_objects_by_type("Node").is_empty());
    assert_eq!(state.find_id_by_name("effect_input.proc"), Some(38));
    assert_eq!(state.find_id_by_name("alsa_card.0"), Some(67));
    assert_eq!(state.find_id_by_name("missing"), None);
    assert_eq!(state.find_name_by_id(67).as_deref(), Some("alsa_card.0"));
    assert_eq!(state.find_name_by_id(80), None);
}

#[test]
fn app_state_rules_and_status() {
    let mut state = AppState::new();
    state.set_link_rules(get_default_rules());
    let rules = state.get_link_rules();
    assert_eq!(rules.len(), 1);
    assert_eq!(rules[0].name, "SpeakerEQ to HiFiBerry");

    assert!(state.get_rule_status(0).is_none());
    state.update_rule_status(0, 2, 1, Some("failed".to_string()));
    let s = state.get_rule_status(0).unwrap();
    assert!(s.last_run.is_some());
    assert_eq!((s.links_created, s.links_failed, s.total_runs), (2, 1, 1));
    assert_eq!(s.last_error.as_deref(), Some("failed"));
    state.update_rule_status(0, 3, 0, None);
    let s = state.get_rule_status(0).unwrap();
    assert_eq!((s.links_created, s.links_failed, s.total_runs), (3, 0, 2));
    assert!(s.last_error.is_none());
    assert!(state.get_rule_status(1).is_none());
    assert_eq!(state.get_all_rule_status().len(), 1);
}

#[test]
fn list_objects_filters_by_type() {
    let nodes: Vec<u32> = list_nodes(LISTING).unwrap().iter().map(|o| o.id).collect();
    assert_eq!(nodes, vec![38, 70]);
    assert_eq!(list_objects(LISTING, None).unwrap().len(), 4);
    assert_eq!(list_objects(LISTING, Some("Client")).unwrap()[0].id, 80);
}

#[test]
fn all_link_rules_system_then_user() {
    let user = get_default_rules();
    let mut system = get_default_rules();
    system[0].name = "system rule".to_string();
    let all = load_all_link_rules(Some(user), Some(system));
    assert_eq!(all.len(), 2);
    assert_eq!(all[0].name, "system rule");
    assert_eq!(all[1].name, "SpeakerEQ to HiFiBerry");
    assert!(load_all_link_rules(None, None).is_empty());
    assert_eq!(load_all_link_rules(Some(get_default_rules()), None).len(), 1);
}

#[test]
fn test_auto_save_starts_parked_until_restore_ran() {
    let state = AutoSaveState::new(10);
    assert!(!state.restore_done, "auto-save must not write before the startup restore has run");
}

#[test]
fn test_drops_module_data_detects_vanished_module() {
    let with_speakereq = r#"{"version":"1","speakereq":{"whatever":1},"input_processor":null}"#;
    let without = r#"{"version":"1","speakereq":null,"input_processor":null}"#;

    assert!(drops_module_data(with_speakereq, without));
    assert!(!drops_module_data(without, with_speakereq));
    assert!(!drops_module_data(without, without));
    assert!(!drops_module_data(with_speakereq, with_speakereq));
}

#[test]
fn test_drops_module_data_ignores_unparsable_previous() {
    let garbage = "not json at all";
    let current = r#"{"version":"1","speakereq":null,"input_processor":null}"#;
    assert!(!drops_module_data(garbage, current));
}

#[test]
fn drops_module_data_counts_a_missing_member_as_lost() {
    let with_input = r#"{"input_processor":{"gain_db":1}}"#;
    assert!(drops_module_data(with_input, r#"{"version":"1"}"#));
    assert!(drops_module_data(with_input, "[1, 2]"));
}

#[test]
fn auto_save_ticks() {
    let mut state = AutoSaveState::new(10);
    assert_eq!(state.interval_secs, 10);
    assert!(matches!(state.tick(Some("{}".to_string())), AutoSaveAction::Wait));
    state.restore_finished();
    assert!(matches!(state.tick(None), AutoSaveAction::Skip));
    let first = r#"{"speakereq":{"a":1}}"#.to_string();
    match state.tick(Some(first.clone())) {
        AutoSaveAction::Save(s) => assert_eq!(s, first),
        other => panic!("expected a save, got {:?}", other),
    }
    state.saved(first.clone());
    assert!(matches!(state.tick(Some(first.clone())), AutoSaveAction::Skip));
    assert!(matches!(state.tick(Some(r#"{"speakereq":null}"#.to_string())), AutoSaveAction::Skip));
    assert!(matches!(state.tick(Some(r#"{"speakereq":{"a":2}}"#.to_string())), AutoSaveAction::Save(_)));
    state.reset();
    assert!(state.last_saved.is_none());
    let from_file = AutoSaveState::new_with_file(5, Some("x".to_string()));
    assert_eq!(from_file.last_saved.as_deref(), Some("x"));
    assert!(!from_file.restore_done);
}

#[test]
fn settings_responses() {
    let r = RestoreResponse::restored(vec!["speakereq".to_string(), "input_processor".to_string()]);
    assert!(r.success);
    assert_eq!(r.message, "Restored 2 modules");
    let r = ResetResponse::reset(vec!["speakereq".to_string()], true);
    assert_eq!(r.message, "Reset 1 module(s) to defaults");
    assert!(r.settings_removed);
    let s = SaveResponse::saved_to("/tmp/settings.json".to_string());
    assert_eq!(s.message, "Settings saved successfully");
    assert_eq!(s.path, "/tmp/settings.json");
}

#[test]
fn test_auto_save_state_creation() {
    let auto_save = AutoSaveState::new(10);
    assert_eq!(auto_save.interval_secs, 10);
    assert!(auto_save.last_saved.is_none());
}

#[test]
fn test_auto_save_state_update() {
    let mut auto_save = AutoSaveState::new(5);
    assert!(auto_save.last_saved.is_none());
    auto_save.saved("test_json".to_string());
    assert_eq!(auto_save.last_saved.as_ref().unwrap(), "test_json");
}
