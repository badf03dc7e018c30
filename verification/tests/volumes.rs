use pw_api::api_server::ApiError;
use pw_api::pwcli::{parse_pwcli_ls, PwObject};
use pw_api::volume::{find_volume_target, object_matches, volume_target, volume_target_name, volume_targets, VolumeTarget};

const LISTING: &str = r#"
	id 40, type PipeWire:Interface:Node/3
 		node.name = "alsa_output.hifiberry"
 		media.class = "Audio/Sink"
	id 41, type PipeWire:Interface:Device/3
 		device.description = "HiFiBerry DAC"
	id 42, type PipeWire:Interface:Node/3
 		node.description = "Microphone"
 		media.class = "Audio/Source"
	id 43, type PipeWire:Interface:Node/3
 		node.description = "Speakers"
 		media.class = "Audio/Sink"
	id 44, type PipeWire:Interface:Device/3
 		device.name = "alsa_card.usb"
 		device.description = "USB Audio"
	id 45, type PipeWire:Interface:Port/3
 		port.name = "playback_FL"
"#;

fn objects() -> Vec<PwObject> {
    parse_pwcli_ls(LISTING).unwrap()
}

#[test]
fn volume_targets_are_devices_and_audio_sinks() {
    let objs = objects();
    let kinds: Vec<Option<VolumeTarget>> = objs.iter().map(volume_target).collect();
    assert_eq!(
        kinds,
        vec![
            Some(VolumeTarget::Sink),
            Some(VolumeTarget::Device),
            None,
            Some(VolumeTarget::Sink),
            Some(VolumeTarget::Device),
            None,
        ]
    );
    assert_eq!(VolumeTarget::Device.as_str(), "device");
    assert_eq!(VolumeTarget::Sink.as_str(), "sink");
}

#[test]
fn volume_target_names_fall_back_to_description_then_unknown() {
    let objs = objects();
    assert_eq!(volume_target_name(&objs[0], VolumeTarget::Sink), "alsa_output.hifiberry");
    assert_eq!(volume_target_name(&objs[1], VolumeTarget::Device), "HiFiBerry DAC");
    assert_eq!(volume_target_name(&objs[3], VolumeTarget::Sink), "Speakers");
    assert_eq!(volume_target_name(&objs[4], VolumeTarget::Device), "alsa_card.usb");
    assert_eq!(volume_target_name(&objs[5], VolumeTarget::Device), "unknown");
}

#[test]
fn volume_listing_puts_devices_before_sinks() {
    let listed: Vec<(u32, VolumeTarget, String)> =
        volume_targets(&objects()).into_iter().map(|t| (t.id, t.target, t.name)).collect();
    assert_eq!(
        listed,
        vec![
            (41, VolumeTarget::Device, "HiFiBerry DAC".to_string()),
            (44, VolumeTarget::Device, "alsa_card.usb".to_string()),
            (40, VolumeTarget::Sink, "alsa_output.hifiberry".to_string()),
            (43, VolumeTarget::Sink, "Speakers".to_string()),
        ]
    );
}

#[test]
fn find_volume_target_by_id() {
    let objs = objects();
    match find_volume_target(&objs, 44) {
        Ok((t, name)) => {
            assert_eq!(t, VolumeTarget::Device);
            assert_eq!(name, "alsa_card.usb");
        }
        Err(e) => panic!("unexpected error {:?}", e),
    }
    match find_volume_target(&objs, 42) {
        Err(ApiError::NotFound(m)) => assert_eq!(m, "Object 42 not found or not a volume-capable object"),
        other => panic!("unexpected {:?}", other),
    }
    match find_volume_target(&objs, 99) {
        Err(ApiError::NotFound(m)) => assert_eq!(m, "Object 99 not found or not a volume-capable object"),
        other => panic!("unexpected {:?}", other),
    }
}

#[test]
fn volume_rule_patterns_must_all_match() {
    let objs = objects();
    let device = &objs[4];
    let pat = |k: &str, v: &str| (k.to_string(), v.to_string());
    assert!(object_matches(device, &[pat("device.name", "^alsa_card"), pat("device.description", "USB")]));
    // An invalid pattern matches nothing, so the rule does not apply.
    assert!(!object_matches(device, &[pat("device.name", "("), pat("device.description", "USB")]));
    // A listed property the object lacks does not match.
    assert!(!object_matches(device, &[pat("device.api", ".*")]));
    assert!(object_matches(device, &[]));
}
