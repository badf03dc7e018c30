use pw_api::graph::{
    classify_media_class, detect_filter_chains, escape_label, generate_dot_graph, graph_objects, is_audio_node,
    is_internal_client, GraphObject, NodeTypeClassification,
};
use pw_api::pwcli::{parse_pwcli_ls, PwObject};

const LISTING: &str = r#"
	id 35, type PipeWire:Interface:Client/3
 		client.name = "speakereq-app"
	id 38, type PipeWire:Interface:Node/3
 		node.name = "effect_input.proc"
 		media.class = "Audio/Sink"
 		client.id = "35"
	id 39, type PipeWire:Interface:Node/3
 		node.name = "effect_output.proc"
 		media.class = "Stream/Output/Audio"
 		client.id = "35"
	id 81, type PipeWire:Interface:Node/3
 		node.name = "alsa_output.hdmi"
 		media.class = "Audio/Sink"
	id 100, type PipeWire:Interface:Port/3
 		node.id = "39"
	id 101, type PipeWire:Interface:Port/3
 		node.id = "81"
	id 200, type PipeWire:Interface:Link/3
 		link.output.port = "100"
 		link.input.port = "101"
	id 201, type PipeWire:Interface:Link/3
 		link.output.port = "100"
 		link.input.port = "101"
"#;

fn items(objects: Vec<PwObject>) -> Vec<GraphObject> {
    objects
        .into_iter()
        .map(|o| {
            let class = if o.object_type == "Node" { NodeTypeClassification::Audio } else { NodeTypeClassification::Other };
            GraphObject { object: o, class, internal_client: false }
        })
        .collect()
}

#[test]
fn dot_graph_combines_filter_chains_and_aggregates_links() {
    let dot = generate_dot_graph(&items(parse_pwcli_ls(LISTING).unwrap()));
    let expected: String = [
        "digraph PipeWire {\n",
        "    rankdir=LR;\n",
        "    node [shape=box, style=filled];\n",
        "    newrank=true;\n",
        "    compound=true;\n",
        "    \n",
        "    // Audio Graph\n",
        "    subgraph cluster_graph {\n",
        "        label=\"\";\n",
        "        style=invis;\n",
        "        \n",
        "        // Clients\n",
        "        client_35 [label=\"speakereq-app\\nClient ID: 35\", fillcolor=lavender, shape=ellipse];\n",
        "\n",
        "        // Filter Chains (combined input+output)\n",
        "        chain_38 [label=\"effect\\nID: 38/39\", fillcolor=lightyellow, style=\"filled,bold\"];\n",
        "\n",
        "        // Audio Nodes\n",
        "        node_81 [label=\"alsa_output.hdmi\\nID: 81\", fillcolor=lightblue];\n",
        "\n",
        "        // Links\n",
        "        chain_38 -> node_81;\n",
        "\n        // Client connections\n",
        "        client_35 -> chain_38 [style=dashed, color=gray];\n",
        "    }\n\n",
        "    // Rank: sinks at bottom\n",
        "    { rank=max; node_81 }\n",
        "}\n",
    ]
    .concat();
    assert_eq!(dot, expected);
}

#[test]
fn dot_graph_hides_internal_clients_and_non_audio_nodes() {
    let mut its = items(parse_pwcli_ls(LISTING).unwrap());
    its[0].internal_client = true;
    its[3].class = NodeTypeClassification::Midi;
    let dot = generate_dot_graph(&its);
    assert!(!dot.contains("client_35"));
    assert!(!dot.contains("node_81"));
    assert!(!dot.contains("->"));
    assert!(!dot.contains("rank=max"));
    assert!(dot.contains("chain_38 [label=\"effect\\nID: 38/39\""));
}

#[test]
fn filter_chains_by_output_name() {
    let listing = r#"
	id 10, type PipeWire:Interface:Node/3
 		node.name = "riaa"
 		media.class = "Audio/Source/Virtual"
	id 11, type PipeWire:Interface:Node/3
 		node.name = "riaa.output"
 		media.class = "Stream/Output/Audio"
	id 12, type PipeWire:Interface:Node/3
 		node.name = "other.output"
 		media.class = "Stream/Output/Audio"
"#;
    let objects = parse_pwcli_ls(listing).unwrap();
    let refs: Vec<&PwObject> = objects.iter().collect();
    let chains = detect_filter_chains(&refs);
    assert_eq!(chains.len(), 1);
    assert_eq!(chains[0].name, "riaa");
    assert_eq!((chains[0].input_id, chains[0].output_id), (10, 11));
}

#[test]
fn unknown_nodes_are_judged_by_name() {
    let mut midi = PwObject::new(1, "Node".to_string());
    midi.insert_property("node.name".to_string(), "Midi-Bridge".to_string());
    assert!(!is_audio_node(&midi, NodeTypeClassification::Unknown));
    let mut alsa = PwObject::new(2, "Node".to_string());
    alsa.insert_property("node.name".to_string(), "ALSA_output".to_string());
    assert!(is_audio_node(&alsa, NodeTypeClassification::Unknown));
    let plain = PwObject::new(3, "Node".to_string());
    assert!(is_audio_node(&plain, NodeTypeClassification::Unknown));
    let client = PwObject::new(4, "Client".to_string());
    assert!(!is_audio_node(&client, NodeTypeClassification::Unknown));
    assert!(!is_audio_node(&plain, NodeTypeClassification::Video));
    assert!(is_audio_node(&client, NodeTypeClassification::Audio));
}

#[test]
fn labels_escape_quotes() {
    assert_eq!(escape_label("say \"hi\""), "say \\\"hi\\\"");
    assert_eq!(escape_label("plain"), "plain");
}

#[test]
fn dot_graph_shows_audio_devices_in_their_own_cluster() {
    let listing = r#"
	id 56, type PipeWire:Interface:Device/3
 		device.name = "alsa_card.0"
 		media.class = "Audio/Device"
	id 57, type PipeWire:Interface:Device/3
 		device.name = "v4l2_camera"
 		media.class = "Video/Device"
"#;
    let its: Vec<GraphObject> = parse_pwcli_ls(listing)
        .unwrap()
        .into_iter()
        .map(|o| {
            let class = if o.id == 56 { NodeTypeClassification::Audio } else { NodeTypeClassification::Video };
            GraphObject { object: o, class, internal_client: false }
        })
        .collect();
    let dot = generate_dot_graph(&its);
    assert!(dot.starts_with("digraph PipeWire {\n    rankdir=LR;\n"));
    let cluster = [
        "    subgraph cluster_devices {\n",
        "        label=\"Devices\";\n",
        "        style=dashed;\n",
        "        color=gray;\n",
        "        dev_56 [label=\"alsa_card.0\", fillcolor=lightgray];\n",
        "    }\n\n",
        "    // Audio Graph\n",
    ]
    .concat();
    assert!(dot.contains(&cluster));
    assert!(!dot.contains("dev_57"));
    assert!(dot.ends_with("}\n"));
}

#[test]
fn dot_graph_without_devices_has_no_device_cluster() {
    let dot = generate_dot_graph(&items(parse_pwcli_ls(LISTING).unwrap()));
    assert!(!dot.contains("cluster_devices"));
}

#[test]
fn media_classes_classify_by_their_words_in_any_case() {
    assert_eq!(classify_media_class(Some("Audio/Sink")), NodeTypeClassification::Audio);
    assert_eq!(classify_media_class(Some("Midi/Bridge")), NodeTypeClassification::Midi);
    assert_eq!(classify_media_class(Some("Video/Source")), NodeTypeClassification::Video);
    assert_eq!(classify_media_class(Some("AUDIO/DUPLEX")), NodeTypeClassification::Audio);
    assert_eq!(classify_media_class(Some("Stream/Output/Audio")), NodeTypeClassification::Audio);
    assert_eq!(classify_media_class(Some("Audio/Midi")), NodeTypeClassification::Midi);
    assert_eq!(classify_media_class(Some("Metadata")), NodeTypeClassification::Other);
    assert_eq!(classify_media_class(None), NodeTypeClassification::Unknown);
}

#[test]
fn internal_clients_are_pipewire_and_wireplumber() {
    let mut pw = PwObject::new(1, "Client".to_string());
    pw.insert_property("application.name".to_string(), "PipeWire".to_string());
    assert!(is_internal_client(&pw));
    let mut wp = PwObject::new(2, "Client".to_string());
    wp.insert_property("client.name".to_string(), "WirePlumber [export]".to_string());
    assert!(is_internal_client(&wp));
    let mut app = PwObject::new(3, "Client".to_string());
    app.insert_property("application.name".to_string(), "pipewire-api".to_string());
    assert!(!is_internal_client(&app));
    assert!(!is_internal_client(&PwObject::new(4, "Client".to_string())));
}

#[test]
fn graph_objects_classify_each_listed_object() {
    let objects = parse_pwcli_ls(
        "\tid 35, type PipeWire:Interface:Client/3\n \t\tapplication.name = \"WirePlumber\"\n\tid 38, type PipeWire:Interface:Node/3\n \t\tmedia.class = \"Audio/Sink\"\n\tid 39, type PipeWire:Interface:Node/3\n \t\tapplication.name = \"WirePlumber\"\n",
    )
    .unwrap();
    let gs = graph_objects(objects);
    assert_eq!(gs.len(), 3);
    assert_eq!((gs[0].object.id, gs[0].class, gs[0].internal_client), (35, NodeTypeClassification::Unknown, true));
    assert_eq!((gs[1].object.id, gs[1].class, gs[1].internal_client), (38, NodeTypeClassification::Audio, false));
    // Only clients are internal clients.
    assert!(!gs[2].internal_client);
}
