use pw_api::default_link_rules::get_default_rules;
use pw_api::link_manager_cli::{matches_identifier, NodeInfo};
use pw_api::linker::{wildcard_to_regex, LinkType, LogLevel, NodeIdentifier};
use pw_api::param_rules::{node_matches, NodeMatcher};
use pw_api::pwcli::PwObject;
use pw_api::util::regex_match;

use pw_api::api_server::ApiError;
use pw_api::speakereq::{eq_type_from_string, eq_type_to_string};
use pw_api::speakereq::{count_eq_slots, get_plugin_prefix, pkey};
use pw_api::speakereq::{eq_type_infos, get_io, get_structure};
use pw_api::api_types::{link_created_response, link_endpoints, link_exists_response, link_removed_by_name_response, link_removed_response, list_ports_response, list_response, to_api_object};
use pw_api::pwlink::{PwLink, PwPort};
fn node_with(props: &[(&str, &str)]) -> PwObject {
    let mut node = PwObject::new(42, "Node".to_string());
    for (k, v) in props {
        node.insert_property(k.to_string(), v.to_string());
    }
    node
}

#[test]
fn test_default_rules_exist() {
    let rules = get_default_rules();
    assert!(!rules.is_empty(), "Should have at least one default rule");
}

#[test]
fn test_speakereq_rule() {
    let rules = get_default_rules();
    let speakereq_rule = &rules[0];

    assert_eq!(
        speakereq_rule.source.node_name.as_deref(),
        Some("^speakereq.x.\\.output$")
    );
    assert_eq!(
        speakereq_rule.destination.object_path.as_deref(),
        Some("alsa:.*:sndrpihifiberry:.*:playback")
    );
    assert!(matches!(speakereq_rule.link_type, LinkType::Link));
}

#[test]
fn default_rule_uses_documented_defaults() {
    let rules = get_default_rules();
    assert_eq!(rules.len(), 1);
    let rule = &rules[0];
    assert_eq!(rule.name, "SpeakerEQ to HiFiBerry");
    assert!(rule.link_at_startup);
    assert_eq!(rule.relink_every, 0);
    assert_eq!(rule.info_level, LogLevel::Info);
    assert_eq!(rule.error_level, LogLevel::Error);
}

#[test]
fn test_matches_identifier() {
    let node = NodeInfo {
        id: 1,
        node_name: Some("effect_output.proc".to_string()),
        node_nick: None,
        object_path: Some("/path/to/node".to_string()),
    };

    // Match by node.name
    let id1 = NodeIdentifier {
        node_name: Some("^effect_output\\.proc$".to_string()),
        node_nick: None,
        object_path: None,
    };
    assert!(matches_identifier(&node, &id1));

    // Match by object.path
    let id2 = NodeIdentifier {
        node_name: None,
        node_nick: None,
        object_path: Some("/path/.*".to_string()),
    };
    assert!(matches_identifier(&node, &id2));

    // No match
    let id3 = NodeIdentifier {
        node_name: Some("^other_node$".to_string()),
        node_nick: None,
        object_path: None,
    };
    assert!(!matches_identifier(&node, &id3));
}

#[test]
fn identifier_any_field_matches_and_missing_values_do_not() {
    let node = NodeInfo { id: 7, node_name: None, node_nick: Some("HiFi".to_string()), object_path: None };
    let by_nick_or_name = NodeIdentifier {
        node_name: Some(".*".to_string()),
        node_nick: Some("^HiFi$".to_string()),
        object_path: None,
    };
    assert!(matches_identifier(&node, &by_nick_or_name));
    let by_name_only = NodeIdentifier { node_name: Some(".*".to_string()), node_nick: None, object_path: None };
    assert!(!matches_identifier(&node, &by_name_only));
    let empty = NodeIdentifier { node_name: None, node_nick: None, object_path: None };
    assert!(!matches_identifier(&node, &empty));
}

#[test]
fn identifier_matches_properties_by_first_entry() {
    let props = vec![
        ("object.path".to_string(), "alsa:acp:sndrpihifiberry:1:playback".to_string()),
        ("node.name".to_string(), "alsa_output.hifiberry".to_string()),
    ];
    let rule = get_default_rules();
    assert!(rule[0].destination.matches_properties(&props));
    assert!(!rule[0].source.matches_properties(&props));
}

#[test]
fn test_regex_match() {
    assert!(regex_match("^test.*", "test123"));
    assert!(regex_match(".*test$", "mytest"));
    assert!(regex_match(".*test.*", "myteststring"));
    assert!(regex_match("^test$", "test"));
    assert!(!regex_match("^test$", "test123"));
    assert!(regex_match("^node\\.", "node.input"));

    assert!(regex_match("^test.$", "test1"));
    assert!(regex_match("^test.$", "testa"));
    assert!(!regex_match("^test.$", "test12"));
    assert!(regex_match("^speakereq.x.\\.output$", "speakereq2x2.output"));
    assert!(regex_match("^speakereq.x.\\.output$", "speakereq4x4.output"));

    assert!(regex_match("alsa.*sndrpihifiberry.*playback", "alsa:acp:sndrpihifiberry:1:playback"));
    assert!(regex_match("alsa:.*:sndrpihifiberry:.*:playback", "alsa:acp:sndrpihifiberry:1:playback"));
    assert!(regex_match("^test..*", "test1234"));

    assert!(regex_match("^effect_output\\.proc$", "effect_output.proc"));
}

#[test]
fn invalid_regex_matches_nothing() {
    assert!(!regex_match("(unclosed", "(unclosed"));
    assert!(!regex_match("[", ""));
}

#[test]
fn test_node_matches_by_name() {
    let node = node_with(&[("node.name", "speakereq2x2")]);

    let matcher = NodeMatcher { node_name: Some("^speakereq2x2$".to_string()), object_path: None };
    assert!(node_matches(&node, &matcher));

    let matcher = NodeMatcher { node_name: Some("^speakereq[0-9]x[0-9]$".to_string()), object_path: None };
    assert!(node_matches(&node, &matcher));

    let matcher = NodeMatcher { node_name: Some("^filter".to_string()), object_path: None };
    assert!(!node_matches(&node, &matcher));
}

#[test]
fn test_node_matches_by_path() {
    let node = node_with(&[("object.path", "filter:speakereq")]);

    let matcher = NodeMatcher { node_name: None, object_path: Some("filter:.*".to_string()) };
    assert!(node_matches(&node, &matcher));

    let matcher = NodeMatcher { node_name: None, object_path: Some("^device:.*".to_string()) };
    assert!(!node_matches(&node, &matcher));
}

#[test]
fn test_node_matches_both_criteria() {
    let node = node_with(&[("node.name", "speakereq2x2"), ("object.path", "filter:speakereq")]);

    let matcher = NodeMatcher {
        node_name: Some("^speakereq.*".to_string()),
        object_path: Some("filter:.*".to_string()),
    };
    assert!(node_matches(&node, &matcher));

    let matcher = NodeMatcher {
        node_name: Some("^speakereq.*".to_string()),
        object_path: Some("device:.*".to_string()),
    };
    assert!(!node_matches(&node, &matcher));
}

#[test]
fn test_node_matches_no_criteria() {
    let node = node_with(&[("node.name", "anything")]);
    let matcher = NodeMatcher { node_name: None, object_path: None };
    assert!(node_matches(&node, &matcher));
}

#[test]
fn test_regex_pattern_validation() {
    let node = node_with(&[("node.name", "test123")]);

    assert!(node_matches(&node, &NodeMatcher { node_name: Some("test[0-9]+".to_string()), object_path: None }));
    assert!(node_matches(&node, &NodeMatcher { node_name: Some("^test.*".to_string()), object_path: None }));
    assert!(node_matches(&node, &NodeMatcher { node_name: Some(".*123$".to_string()), object_path: None }));
}

#[test]
fn node_matcher_needs_the_property_and_a_valid_pattern() {
    let node = node_with(&[("node.name", "test123")]);
    assert!(!node_matches(&node, &NodeMatcher { node_name: None, object_path: Some(".*".to_string()) }));
    assert!(!node_matches(&node, &NodeMatcher { node_name: Some("[".to_string()), object_path: None }));
}

#[test]
fn eq_types_round_trip_and_reject_unknown_names() {
    for id in 0..=8 {
        assert_eq!(eq_type_from_string(&eq_type_to_string(id)).unwrap(), id);
    }
    assert_eq!(eq_type_from_string("Low_Shelf").unwrap(), 1);
    assert_eq!(eq_type_from_string("ALL_PASS").unwrap(), 8);
    assert_eq!(eq_type_to_string(9), "unknown_9");
    assert_eq!(eq_type_to_string(-3), "unknown_-3");
    match eq_type_from_string("bogus") {
        Err(ApiError::BadRequest(m)) => assert_eq!(m, "Invalid EQ type: bogus"),
        other => panic!("expected a bad request, got {:?}", other),
    }
}

#[test]
fn speakereq_prefix_and_slots() {
    let keys: Vec<String> = vec![
        "volume".to_string(),
        "riaa:Gain".to_string(),
        "speakereq4x4:Enable".to_string(),
        "speakereq4x4:input_0_eq_1_type".to_string(),
        "speakereq4x4:input_0_eq_2_type".to_string(),
        "speakereq4x4:input_0_eq_4_type".to_string(),
    ];
    assert_eq!(get_plugin_prefix(&keys), "speakereq4x4");
    assert_eq!(get_plugin_prefix(&keys[..2]), "speakereq2x2");
    assert_eq!(count_eq_slots(&keys, "speakereq4x4", "input_0"), 2);
    assert_eq!(count_eq_slots(&keys, "speakereq4x4", "output_0"), 0);
    assert_eq!(pkey("speakereq2x2", "Enable"), "speakereq2x2:Enable");
}

#[test]
fn speakereq_structure_and_capabilities() {
    let s = get_structure("speakereq2x2".to_string(), None, None);
    assert_eq!(s.name, "speakereq2x2");
    assert_eq!(s.version, "1.0");
    assert_eq!(s.blocks.len(), 8);
    assert_eq!(s.blocks[2].id, "crossbar");
    assert_eq!(s.blocks[2].slots, 4);
    assert!(!s.enabled);
    assert!(s.licensed);
    let s = get_structure("x".to_string(), Some(true), Some(false));
    assert!(s.enabled && !s.licensed);
    let io = get_io();
    assert_eq!((io.inputs, io.outputs), (2, 2));
    let infos = eq_type_infos();
    assert_eq!(infos.len(), 9);
    assert_eq!(infos[3].name, "peaking");
    assert!(infos[3].requires_gain);
    assert!(!infos[8].requires_gain);
    assert_eq!(infos[8].description, "All pass filter - affects phase only");
}

#[test]
fn api_objects_and_link_requests() {
    let mut node = PwObject::new(5, "Node".to_string());
    node.insert_property("node.name".to_string(), "sink".to_string());
    let api = to_api_object(&node);
    assert_eq!((api.id, api.name.as_str(), api.object_type.as_str()), (5, "sink", "node"));
    assert_eq!(list_response(&[node]).objects.len(), 1);
    let ports = vec![PwPort::from_full_name(53, "effect_input.proc:monitor_FL")];
    let r = list_ports_response(&ports);
    assert_eq!(r.ports[0].node_name, "effect_input.proc");
    assert_eq!(r.ports[0].port_name, "monitor_FL");
    assert_eq!(link_endpoints("12", "34"), Ok(Some((12, 34))));
    assert_eq!(link_endpoints("a:b", "34"), Ok(None));
    assert_eq!(link_endpoints("99999999999", "1"), Err("Invalid output port ID".to_string()));
    assert_eq!(link_endpoints("1", ""), Err("Invalid input port ID".to_string()));
    let l = PwLink { id: 7, output_port_id: 1, output_port_name: "a".to_string(), input_port_id: 2, input_port_name: "b".to_string() };
    let e = link_exists_response(Some(&l));
    assert!(e.exists);
    assert_eq!(e.link_id, Some(7));
    assert!(!link_exists_response(None).exists);
    assert_eq!(link_created_response("a", "b", Some(7)).message, "Link created: a -> b");
    assert_eq!(link_removed_response(7).message, "Link 7 removed");
    assert_eq!(link_removed_by_name_response("a", "b").message, "Link removed: a -> b");
    assert_eq!(link_removed_by_name_response("a", "b").status, "ok");
}

fn name_identifier(pattern: &str) -> NodeIdentifier {
    NodeIdentifier { node_name: Some(pattern.to_string()), node_nick: None, object_path: None }
}

#[test]
fn identifier_wildcards() {
    let props = vec![("node.name".to_string(), "my_speaker_out".to_string())];
    assert!(name_identifier("*speaker*").matches_properties(&props));
    assert!(!name_identifier("*speaker").matches_properties(&props));
    assert!(name_identifier("*_out").matches_properties(&props));
    let usb = vec![("node.name".to_string(), "alsa_output.usb".to_string())];
    assert!(name_identifier("*.usb").matches_properties(&usb));
    assert!(name_identifier("alsa_*").matches_properties(&usb));
    assert!(!name_identifier("*.pci").matches_properties(&usb));
    // A valid regex keeps its regex meaning.
    assert!(name_identifier("output").matches_properties(&usb));
    assert!(name_identifier("^alsa_output\\.usb$").matches_properties(&usb));
}

#[test]
fn wildcard_pattern_as_regex() {
    assert_eq!(wildcard_to_regex("*speaker*"), "^.*speaker.*$");
    assert_eq!(wildcard_to_regex("*.usb"), "^.*.usb$");
    assert_eq!(wildcard_to_regex(""), "^$");
}
