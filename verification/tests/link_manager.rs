use pw_api::default_link_rules::get_default_rules;
use pw_api::link_manager_cli::{apply_link_rule, list_links, step_result, LinkData, LinkStep, NodeInfo, PortDirection};
use pw_api::linker::LinkType;
use pw_api::pwcli::parse_pwcli_ls;
use pw_api::pwlink::{pw_link_outcome, PwLink};

const LISTING: &str = r#"
	id 40, type PipeWire:Interface:Node/3
 		node.name = "speakereq2x2.output"
	id 50, type PipeWire:Interface:Node/3
 		node.name = "alsa_output.hifiberry"
 		object.path = "alsa:acp:sndrpihifiberry:1:playback"
	id 42, type PipeWire:Interface:Port/3
 		node.id = "40"
 		port.name = "output_FR"
 		port.direction = "out"
 		audio.channel = "FR"
	id 41, type PipeWire:Interface:Port/3
 		node.id = "40"
 		port.name = "output_FL"
 		port.direction = "out"
	id 51, type PipeWire:Interface:Port/3
 		node.id = "50"
 		port.name = "playback_FL"
 		port.direction = "in"
	id 52, type PipeWire:Interface:Port/3
 		node.id = "50"
 		port.name = "playback_FR"
 		port.direction = "in"
	id 53, type PipeWire:Interface:Port/3
 		node.id = "50"
 		port.name = "monitor_FL"
 		port.direction = "out"
 		port.monitor = "true"
	id 54, type PipeWire:Interface:Port/3
 		node.id = "99"
 		port.name = "orphan"
 		port.direction = "out"
"#;

fn existing_links() -> Vec<PwLink> {
    vec![PwLink {
        id: 60,
        output_port_id: 41,
        output_port_name: "speakereq2x2.output:output_FL".to_string(),
        input_port_id: 51,
        input_port_name: "alsa_output.hifiberry:playback_FL".to_string(),
    }]
}

fn data() -> LinkData {
    let objects = parse_pwcli_ls(LISTING).unwrap();
    LinkData::load(&objects, &existing_links())
}

fn done(step: &LinkStep) -> (bool, String) {
    match step {
        LinkStep::Done(r) => (r.success, r.message.clone()),
        other => panic!("expected a result, got {:?}", other),
    }
}

#[test]
fn load_keeps_nodes_ports_and_links() {
    let d = data();
    assert_eq!(d.nodes.len(), 2);
    assert_eq!(d.nodes[0].id, 40);
    assert_eq!(d.nodes[1].object_path.as_deref(), Some("alsa:acp:sndrpihifiberry:1:playback"));
    // the monitor port and the port of an unknown node are left out
    let ids: Vec<u32> = d.ports.iter().map(|p| p.id).collect();
    assert_eq!(ids, vec![42, 41, 51, 52]);
    assert_eq!(d.ports[0].full_name, "speakereq2x2.output:output_FR");
    assert_eq!(d.ports[0].channel.as_deref(), Some("FR"));
    assert_eq!(d.ports[2].direction, PortDirection::Input);
    assert_eq!(d.links.len(), 1);
    assert_eq!(d.links[0].id, 60);
}

#[test]
fn link_data_queries() {
    let d = data();
    let rules = get_default_rules();
    let sources = d.find_matching_nodes(&rules[0].source);
    assert_eq!(sources.len(), 1);
    assert_eq!(sources[0].id, 40);
    let outs: Vec<u32> = d.get_output_ports(40).iter().map(|p| p.id).collect();
    assert_eq!(outs, vec![42, 41]);
    let ins: Vec<u32> = d.get_input_ports(50).iter().map(|p| p.id).collect();
    assert_eq!(ins, vec![51, 52]);
    assert!(d.get_input_ports(40).is_empty());
    assert!(d.link_exists("speakereq2x2.output:output_FL", "alsa_output.hifiberry:playback_FL"));
    assert!(!d.link_exists("alsa_output.hifiberry:playback_FL", "speakereq2x2.output:output_FL"));
    assert!(d.link_exists_by_id(41, 51));
    assert!(!d.link_exists_by_id(42, 52));
    assert_eq!(d.find_link_id("speakereq2x2.output:output_FL", "alsa_output.hifiberry:playback_FL"), Some(60));
    assert_eq!(d.find_link_id("x", "y"), None);
}

#[test]
fn link_rule_creates_only_missing_links_in_port_id_order() {
    let d = data();
    let rules = get_default_rules();
    let steps = apply_link_rule(&d, &rules[0]).unwrap();
    assert_eq!(steps.len(), 2);
    assert_eq!(
        done(&steps[0]),
        (true, "Link already exists: speakereq2x2.output:output_FL -> alsa_output.hifiberry:playback_FL".to_string())
    );
    match &steps[1] {
        LinkStep::Create { output, input } => {
            assert_eq!(output, "speakereq2x2.output:output_FR");
            assert_eq!(input, "alsa_output.hifiberry:playback_FR");
        }
        other => panic!("expected a create step, got {:?}", other),
    }
    let created = step_result(&steps[1], Ok(()));
    assert!(created.success);
    assert_eq!(created.message, "Created link: speakereq2x2.output:output_FR -> alsa_output.hifiberry:playback_FR");
    let failed = step_result(&steps[1], Err("busy".to_string()));
    assert!(!failed.success);
    assert_eq!(
        failed.message,
        "Failed to create link speakereq2x2.output:output_FR -> alsa_output.hifiberry:playback_FR: busy"
    );
    // a known result stays what it is, whatever the outcome
    let kept = step_result(&steps[0], Err("ignored".to_string()));
    assert!(kept.success);
    assert_eq!(kept.message, "Link already exists: speakereq2x2.output:output_FL -> alsa_output.hifiberry:playback_FL");
}

#[test]
fn unlink_rule_removes_existing_links() {
    let d = data();
    let mut rule = get_default_rules().remove(0);
    rule.link_type = LinkType::Unlink;
    let steps = apply_link_rule(&d, &rule).unwrap();
    assert_eq!(steps.len(), 2);
    match &steps[0] {
        LinkStep::Remove { link_id, output, input } => {
            assert_eq!(*link_id, 60);
            assert_eq!(output, "speakereq2x2.output:output_FL");
            assert_eq!(input, "alsa_output.hifiberry:playback_FL");
        }
        other => panic!("expected a remove step, got {:?}", other),
    }
    assert_eq!(
        done(&steps[1]),
        (true, "Link does not exist: speakereq2x2.output:output_FR -> alsa_output.hifiberry:playback_FR".to_string())
    );
    let removed = step_result(&steps[0], Ok(()));
    assert_eq!(removed.message, "Removed link: speakereq2x2.output:output_FL -> alsa_output.hifiberry:playback_FL");
    let failed = step_result(&steps[0], Err("gone".to_string()));
    assert!(!failed.success);
    assert_eq!(
        failed.message,
        "Failed to remove link speakereq2x2.output:output_FL -> alsa_output.hifiberry:playback_FL: gone"
    );
}

#[test]
fn link_rule_reports_port_count_mismatch() {
    let listing = format!(
        "{}\tid 55, type PipeWire:Interface:Port/3\n \t\tnode.id = \"50\"\n \t\tport.name = \"playback_LFE\"\n \t\tport.direction = \"in\"\n",
        LISTING
    );
    let objects = parse_pwcli_ls(&listing).unwrap();
    let d = LinkData::load(&objects, &[]);
    let steps = apply_link_rule(&d, &get_default_rules()[0]).unwrap();
    assert_eq!(steps.len(), 1);
    assert_eq!(
        done(&steps[0]),
        (
            false,
            "Port count mismatch for speakereq2x2.output -> alsa_output.hifiberry: 2 output ports vs 3 input ports"
                .to_string()
        )
    );
}

#[test]
fn link_rule_reports_nodes_without_ports() {
    let listing = "\tid 40, type PipeWire:Interface:Node/3\n \t\tnode.name = \"speakereq2x2.output\"\n\tid 50, type PipeWire:Interface:Node/3\n \t\tobject.path = \"alsa:acp:sndrpihifiberry:1:playback\"\n";
    let objects = parse_pwcli_ls(listing).unwrap();
    let d = LinkData::load(&objects, &[]);
    let steps = apply_link_rule(&d, &get_default_rules()[0]).unwrap();
    assert_eq!(steps.len(), 1);
    assert_eq!(
        done(&steps[0]),
        (false, "No ports found to link speakereq2x2.output -> alsa:acp:sndrpihifiberry:1:playback".to_string())
    );
}

#[test]
fn link_rule_without_matching_nodes_fails() {
    let objects = parse_pwcli_ls(LISTING).unwrap();
    let d = LinkData::load(&objects, &[]);
    let mut rule = get_default_rules().remove(0);
    rule.source.node_name = Some("^nothing$".to_string());
    assert_eq!(apply_link_rule(&d, &rule).unwrap_err(), "No source nodes found matching criteria");
    let mut rule = get_default_rules().remove(0);
    rule.destination.object_path = Some("^nothing$".to_string());
    assert_eq!(apply_link_rule(&d, &rule).unwrap_err(), "No destination nodes found matching criteria");
}

#[test]
fn node_display_name_falls_back_to_id() {
    let n = NodeInfo { id: 12, node_name: None, node_nick: None, object_path: None };
    assert_eq!(n.display_name(), "node-12");
    let n = NodeInfo { id: 12, node_name: None, node_nick: Some("nick".to_string()), object_path: Some("p".to_string()) };
    assert_eq!(n.display_name(), "nick");
}

#[test]
fn list_links_keeps_every_link() {
    let links = list_links(&existing_links());
    assert_eq!(links.len(), 1);
    assert_eq!(links[0].output_port_id, 41);
    assert_eq!(links[0].input_port_name, "alsa_output.hifiberry:playback_FL");
}

#[test]
fn pw_link_outcome_trims_the_error() {
    assert_eq!(pw_link_outcome(true, "Failed to create link", "ignored"), Ok(()));
    assert_eq!(
        pw_link_outcome(false, "Failed to create link", "  no such port\n"),
        Err("Failed to create link: no such port".to_string())
    );
}
