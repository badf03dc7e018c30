use pw_api::pwcli::{parse_pwcli_ls, simplify_type, PwObject};
use pw_api::pwlink::{parse_links, parse_ports, PwPort};
use regex::Regex;
use pw_api::wpctl::{wpctl_outcome, get_object_info, parse_volume_output, parse_wpctl_inspect, parse_wpctl_status};

#[test]
fn test_parse_pwcli_ls() {
    let output = r#"
        id 38, type PipeWire:Interface:Node/3
                object.serial = "38"
                factory.id = "18"
                client.id = "35"
                node.description = "EQ + Balance Sink"
                node.name = "effect_input.proc"
                media.class = "Audio/Sink"
        id 66, type PipeWire:Interface:Node/3
                object.serial = "66"
                factory.id = "18"
                node.name = "alsa_output.hdmi"
                node.description = "Built-in Audio Digital Stereo (HDMI)"
                media.class = "Audio/Sink"
        id 67, type PipeWire:Interface:Device/3
                object.serial = "67"
                device.name = "alsa_card.0"
                device.description = "Built-in Audio"
"#;

    let objects = parse_pwcli_ls(output).unwrap();

    assert_eq!(objects.len(), 3);

    let node1 = &objects[0];
    assert_eq!(node1.id, 38);
    assert_eq!(node1.object_type, "Node");
    assert_eq!(node1.name(), Some("effect_input.proc"));
    assert_eq!(node1.description(), Some("EQ + Balance Sink"));
    assert_eq!(node1.media_class(), Some("Audio/Sink"));

    let node2 = &objects[1];
    assert_eq!(node2.id, 66);
    assert_eq!(node2.name(), Some("alsa_output.hdmi"));

    let device = &objects[2];
    assert_eq!(device.id, 67);
    assert_eq!(device.object_type, "Device");
    assert_eq!(device.name(), Some("alsa_card.0"));
}

#[test]
fn test_simplify_type() {
    assert_eq!(simplify_type("Node"), "node");
    assert_eq!(simplify_type("Device"), "device");
    assert_eq!(simplify_type("Unknown"), "unknown");
}

#[test]
fn test_parse_ports() {
    let output = r#"  53 effect_input.proc:monitor_FL
  55 effect_input.proc:monitor_FR
  90 effect_output.proc:output_FL
"#;
    let ports = parse_ports(output).unwrap();
    assert_eq!(ports.len(), 3);
    assert_eq!(ports[0].id, 53);
    assert_eq!(ports[0].name, "effect_input.proc:monitor_FL");
    assert_eq!(ports[0].node_name, "effect_input.proc");
    assert_eq!(ports[0].port_name, "monitor_FL");
}

#[test]
fn test_parse_links() {
    let output = r#"  90 effect_output.proc:output_FL
  92   |->   82 speakereq2x2:playback_FL
  91 effect_output.proc:output_FR
  93   |->   84 speakereq2x2:playback_FR
  82 speakereq2x2:playback_FL
  92   |<-   90 effect_output.proc:output_FL
"#;
    let links = parse_links(output).unwrap();
    assert_eq!(links.len(), 2);

    assert_eq!(links[0].id, 92);
    assert_eq!(links[0].output_port_id, 90);
    assert_eq!(links[0].output_port_name, "effect_output.proc:output_FL");
    assert_eq!(links[0].input_port_id, 82);
    assert_eq!(links[0].input_port_name, "speakereq2x2:playback_FL");

    assert_eq!(links[1].id, 93);
    assert_eq!(links[1].output_port_id, 91);
}

#[test]
fn test_port_from_full_name() {
    let port = PwPort::from_full_name(42, "node:port_name");
    assert_eq!(port.id, 42);
    assert_eq!(port.name, "node:port_name");
    assert_eq!(port.node_name, "node");
    assert_eq!(port.port_name, "port_name");
}

#[test]
fn test_parse_wpctl_inspect_full() {
    let output = r#"id 38, type PipeWire:Interface:Node
    adapt.follower.spa-node = ""
    audio.channels = "2"
    audio.position = "[ FL FR ]"
  * client.id = "35"
    clock.quantum-limit = "8192"
  * factory.id = "18"
    library.name = "audioconvert/libspa-audioconvert"
  * media.class = "Audio/Sink"
    media.name = "EQ + Balance Sink"
    node.autoconnect = "true"
  * node.description = "EQ + Balance Sink"
    node.driver-id = "81"
    node.group = "filter-chain-1599212-28"
    node.link-group = "filter-chain-1599212-28"
  * node.name = "effect_input.proc"
    node.virtual = "true"
"#;

    let info = parse_wpctl_inspect(output).unwrap();
    assert_eq!(info.id, 38);
    assert_eq!(info.name, "effect_input.proc");
    assert_eq!(info.description, Some("EQ + Balance Sink".to_string()));
    assert_eq!(info.media_class, Some("Audio/Sink".to_string()));
}

#[test]
fn test_parse_wpctl_inspect_minimal() {
    let output = r#"id 81, type PipeWire:Interface:Node
  * node.name = "alsa_output.platform-hdmi"
"#;

    let info = parse_wpctl_inspect(output).unwrap();
    assert_eq!(info.id, 81);
    assert_eq!(info.name, "alsa_output.platform-hdmi");
    assert_eq!(info.description, None);
    assert_eq!(info.media_class, None);
}

#[test]
fn test_parse_wpctl_inspect_with_description_and_class() {
    let output = r#"id 42, type PipeWire:Interface:Node
  * media.class = "Audio/Source/Virtual"
  * node.description = "RIAA Filter Input"
  * node.name = "riaa"
"#;

    let info = parse_wpctl_inspect(output).unwrap();
    assert_eq!(info.id, 42);
    assert_eq!(info.name, "riaa");
    assert_eq!(info.description, Some("RIAA Filter Input".to_string()));
    assert_eq!(info.media_class, Some("Audio/Source/Virtual".to_string()));
}

#[test]
fn test_parse_wpctl_inspect_missing_name() {
    let output = r#"id 99, type PipeWire:Interface:Node
  * media.class = "Audio/Sink"
"#;

    let result = parse_wpctl_inspect(output);
    assert!(result.is_err());
    assert!(result.unwrap_err().contains("node.name"));
}

#[test]
fn test_parse_wpctl_inspect_missing_id() {
    let output = r#"type PipeWire:Interface:Node
  * node.name = "test_node"
"#;

    let result = parse_wpctl_inspect(output);
    assert!(result.is_err());
    assert!(result.unwrap_err().contains("node id"));
}

// Parser edge cases.

#[test]
fn pwcli_property_value_forms() {
    let output = "id 5, type PipeWire:Interface:Port/3\n  a = \"quoted\"\n  b = bare value  \n  c = \"x\"y\"\n  d = \"open\n  a = again\n";
    let objs = parse_pwcli_ls(output).unwrap();
    assert_eq!(objs.len(), 1);
    let o = &objs[0];
    assert_eq!(o.get("a"), Some("again"));
    assert_eq!(o.get("b"), Some("bare value  "));
    assert_eq!(o.get("c"), None);
    assert_eq!(o.get("d"), Some("open"));
    assert_eq!(o.properties.len(), 3);
}

#[test]
fn pwcli_properties_before_header_are_dropped_and_bad_ids_are_zero() {
    let output = "  x = 1\nid 99999999999, type PipeWire:Interface:Node/3\n  node.name = n\n";
    let objs = parse_pwcli_ls(output).unwrap();
    assert_eq!(objs.len(), 1);
    assert_eq!(objs[0].id, 0);
    assert_eq!(objs[0].get("x"), None);
}

#[test]
fn pwobject_display_name_forms() {
    let mut link = PwObject::new(7, "Link".to_string());
    link.insert_property("link.output.node".to_string(), "1".to_string());
    link.insert_property("link.input.port".to_string(), "4".to_string());
    assert_eq!(link.display_name(), "1:? -> ?:4");
    let bare = PwObject::new(12, "Module".to_string());
    assert_eq!(bare.display_name(), "object-12");
    let mut dev = PwObject::new(3, "Device".to_string());
    dev.insert_property("object.path".to_string(), "alsa:pcm".to_string());
    assert_eq!(dev.display_name(), "alsa:pcm");
    assert!(dev.is_type("vic"));
    assert!(!dev.is_type("Node"));
}

#[test]
fn pwlink_lines_without_colon_token_are_ignored() {
    let output = "  90 nocolon\n  92   |->   82 a:b\n  91 a:b\n  93   |->   84 c:d  \n";
    let links = parse_links(output).unwrap();
    assert_eq!(links.len(), 1);
    assert_eq!(links[0].id, 93);
    assert_eq!(links[0].output_port_name, "a:b");
    assert_eq!(links[0].input_port_name, "c:d");
}

#[test]
fn pwlink_port_without_colon() {
    let ports = parse_ports("  7 lonely\n  8   \nfoo\n").unwrap();
    assert_eq!(ports.len(), 2);
    assert_eq!(ports[0].node_name, "lonely");
    assert_eq!(ports[0].port_name, "");
    assert_eq!(ports[1].id, 8);
    assert_eq!(ports[1].name, "");
}

#[test]
fn wpctl_inspect_star_prefix_and_quotes() {
    let output = "id +7, x\n* * node.name = \"\"\"n\"\"\nid 8,\n";
    let info = parse_wpctl_inspect(output).unwrap();
    assert_eq!(info.id, 8);
    assert_eq!(info.name, "n");
}

#[test]
fn property_read_gives_back_the_last_write() {
    let mut obj = PwObject::new(1, "Node".to_string());
    obj.insert_property("node.name".to_string(), "first".to_string());
    obj.insert_property("media.class".to_string(), "Audio/Sink".to_string());
    obj.insert_property("node.name".to_string(), "second".to_string());
    assert_eq!(obj.get("node.name"), Some("second"));
    assert_eq!(obj.get("media.class"), Some("Audio/Sink"));
    assert_eq!(obj.get("node.nick"), None);
    assert_eq!(obj.properties.len(), 2);
}

#[test]
fn test_parse_wpctl_status() {
    let status = r#"
PipeWire 'pipewire-0' [1.4.2, user@host, cookie:123]
 └─ Clients:
        34. WirePlumber

Audio
 ├─ Devices:
 │      56. Built-in Audio                      [alsa]
 │  
 ├─ Sinks:
 │      81. Built-in Audio Stereo               [vol: 0.50]
 │  
 ├─ Sources:
 │  
 ├─ Filters:
 │  *   38. effect_input.proc                   [vol: 1.00]
 │      44. speakereq2x2                        [vol: 0.75]
 │  
 └─ Streams:
"#;

    let volumes = parse_wpctl_status(status).unwrap();

    assert_eq!(volumes.len(), 3);

    let sink = volumes.iter().find(|v| v.id == 81).unwrap();
    assert_eq!(sink.name, "Built-in Audio Stereo");
    assert_eq!(sink.object_type, "sink");
    assert!((sink.volume.parse::<f32>().unwrap() - 0.50).abs() < 0.01);

    let filter = volumes.iter().find(|v| v.id == 38).unwrap();
    assert_eq!(filter.name, "effect_input.proc");
    assert_eq!(filter.object_type, "filter");
    assert!((filter.volume.parse::<f32>().unwrap() - 1.0).abs() < 0.01);
}

#[test]
fn test_parse_volume_output() {
    assert!((parse_volume_output("Volume: 0.50").unwrap().parse::<f32>().unwrap() - 0.50).abs() < 0.01);
    assert!((parse_volume_output("Volume: 1.00 [MUTED]").unwrap().parse::<f32>().unwrap() - 1.0).abs() < 0.01);
    assert!((parse_volume_output("Volume: 0.75\n").unwrap().parse::<f32>().unwrap() - 0.75).abs() < 0.01);
}

#[test]
fn volume_output_without_a_number_is_an_error() {
    assert_eq!(parse_volume_output("Volume: [MUTED]"), Err("Could not parse volume output".to_string()));
    assert_eq!(parse_volume_output("Volume:\nVolume: 0.3").unwrap(), "0.3");
}

#[test]
fn wpctl_status_line_edge_cases() {
    // no name between the id and the volume: the whitespace itself is the name
    let v = parse_wpctl_status("  7.   [vol: 0.40]\n").unwrap();
    assert_eq!(v.len(), 1);
    assert_eq!((v[0].id, v[0].name.as_str(), v[0].object_type.as_str(), v[0].volume.as_str()), (7, "", "unknown", "0.40"));
    // the type comes from the line where no section was opened
    let v = parse_wpctl_status("  9. Out Audio/Sink [vol: 1]\n 10. x [vol: .5] [vol: 2]\n").unwrap();
    assert_eq!(v[0].object_type, "sink");
    assert_eq!(v[0].name, "Out Audio/Sink");
    assert_eq!(v[1].volume, ".5");
    assert!(parse_wpctl_status("  11. no volume here\n").unwrap().is_empty());
}

#[test]
fn object_info_from_wpctl_status() {
    let status = " ├─ Sinks:\n │      81. Built-in Audio Stereo               [vol: 0.50]\n ├─ Filters:\n │      44. speakereq2x2\n";
    assert_eq!(get_object_info(status, 81).unwrap(), ("Built-in Audio Stereo".to_string(), "sink".to_string()));
    assert_eq!(get_object_info(status, 44).unwrap(), ("speakereq2x2".to_string(), "filter".to_string()));
    assert_eq!(get_object_info(status, 5).unwrap_err(), "Object 5 not found in wpctl status");
}

#[test]
fn wpctl_line_parsing_agrees_with_the_regex_crate() {
    let re = Regex::new(r"(\d+)\.\s+(.+?)\s+\[vol:\s*([\d.]+)").unwrap();
    let lines = [
        " │      81. Built-in Audio Stereo               [vol: 0.50]",
        " │  *   38. effect_input.proc                   [vol: 1.00]",
        "  7.   [vol: 0.40]",
        "  7.  [vol: 0.40]",
        "  7. [vol: 0.40]",
        " 10. x [vol: .5] [vol: 2]",
        " 12.a [vol: 1] 13. b [vol: 2]",
        "1.2. name  [vol:3]",
        " 99999999999. big [vol: 0.1]",
        "  5. tab\tname\t[vol:\t0.2.3]",
        " 11. no volume here",
        "abc 4.  spaced   out   [vol: 7] tail",
    ];
    for line in lines {
        let ours = parse_wpctl_status(line).unwrap();
        match re.captures(line) {
            Some(c) => {
                assert_eq!(ours.len(), 1, "line {:?}", line);
                assert_eq!(ours[0].id, c[1].parse::<u32>().unwrap_or(0), "line {:?}", line);
                assert_eq!(ours[0].name, c[2].trim(), "line {:?}", line);
                assert_eq!(ours[0].volume, &c[3], "line {:?}", line);
            }
            None => assert!(ours.is_empty(), "line {:?}", line),
        }
    }
    let info = Regex::new(r"81\.\s+(.+?)(?:\s+\[|$)").unwrap();
    for line in ["  81. Built-in Audio  [vol: 0.5]", " 181. other", "81.  a b", "81. x\t[", "81.  "] {
        let ours = get_object_info(line, 81);
        match info.captures(line) {
            Some(c) => assert_eq!(ours.unwrap().0, c[1].trim(), "line {:?}", line),
            None => assert!(ours.is_err(), "line {:?}", line),
        }
    }
}

#[test]
fn unicode_digits_match_the_digit_class_but_do_not_parse() {
    // `\d` matches Arabic-Indic digits, but `str::parse::<u32>` reads only
    // ASCII digits, so such an id reads as 0.
    let ports = parse_ports("  \u{0665}\u{0663} effect_input.proc:monitor_FL\n  54 effect_input.proc:monitor_FR\n").unwrap();
    assert_eq!(ports.len(), 2);
    assert_eq!(ports[0].id, 0);
    assert_eq!(ports[0].name, "effect_input.proc:monitor_FL");
    assert_eq!(ports[1].id, 54);
    let objects = parse_pwcli_ls("\tid \u{0663}\u{0668}, type PipeWire:Interface:N\u{00f6}de/3\n \t\tnode.name = \"x\"\n").unwrap();
    assert_eq!(objects.len(), 1);
    assert_eq!(objects[0].id, 0);
    assert_eq!(objects[0].object_type, "N\u{00f6}de");
    // Differential check against the regex crate on the same line.
    let re = Regex::new(r"^\s*id\s+(\d+),\s+type\s+PipeWire:Interface:(\w+)/\d+").unwrap();
    let caps = re.captures("\tid \u{0663}\u{0668}, type PipeWire:Interface:N\u{00f6}de/3").unwrap();
    assert_eq!(&caps[2], "N\u{00f6}de");
}

#[test]
fn wpctl_outcomes() {
    assert_eq!(wpctl_outcome(56, "get-volume", true, "Volume: 0.50\n".to_string(), ""), Ok("Volume: 0.50\n".to_string()));
    assert_eq!(
        wpctl_outcome(99, "get-volume", true, "Object '99' not found\n".to_string(), ""),
        Err("Object 99 not found".to_string())
    );
    assert_eq!(
        wpctl_outcome(99, "set-volume", false, String::new(), "Object not found"),
        Err("Object 99 not found".to_string())
    );
    assert_eq!(
        wpctl_outcome(56, "set-volume", false, String::new(), "boom\n"),
        Err("wpctl set-volume failed: boom\n".to_string())
    );
}
