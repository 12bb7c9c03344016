//! Graph announcements, the port-name table, and link planning.

use pwsp::graph::{assign_port, attach_ports, find_device_by_name, insert_device_sorted,
    parse_global_object, plan_link, AudioDevice, DeviceType, LinkPlan, Port};

fn props(pairs: &[(&str, &str)]) -> Vec<(String, String)> {
    let mut v: Vec<(String, String)> = Vec::new();
    let mut i: usize = 0;
    while i < pairs.len() {
        v.push((pairs[i].0.to_string(), pairs[i].1.to_string()));
        i += 1;
    }
    v
}

fn bare_device(id: u32, name: &str, kind: DeviceType) -> AudioDevice {
    AudioDevice {
        id,
        nick: name.to_string(),
        name: name.to_string(),
        device_type: kind,
        input_fl: None,
        input_fr: None,
        output_fl: None,
        output_fr: None,
    }
}

fn port(node_id: u32, port_id: u32, name: &str) -> Port {
    Port { node_id, port_id, name: name.to_string() }
}

#[test]
fn announcements_classify_capture_sources() {
    let p = props(&[
        ("media.class", "Audio/Source"),
        ("node.name", "mic0"),
        ("node.nick", "Front Mic"),
    ]);
    let (dev, prt) = parse_global_object(40, &p);
    assert!(prt.is_none());
    let dev = dev.expect("a device");
    assert_eq!(dev.id, 40);
    assert_eq!(dev.name, "mic0");
    assert_eq!(dev.nick, "Front Mic");
    assert_eq!(dev.device_type, DeviceType::Input);
    assert!(dev.input_fl.is_none() && dev.output_fr.is_none());
}

#[test]
fn announcements_classify_output_streams() {
    let p = props(&[("media.class", "Stream/Output/Audio"), ("node.name", "app")]);
    let (dev, _) = parse_global_object(50, &p);
    assert_eq!(dev.expect("a device").device_type, DeviceType::Output);
}

#[test]
fn virtual_class_counts_as_source() {
    let p = props(&[("media.class", "Audio/Source/Virtual"), ("node.name", "pwsp-virtual-mic")]);
    let (dev, _) = parse_global_object(60, &p);
    assert_eq!(dev.expect("a device").device_type, DeviceType::Input);
}

#[test]
fn nick_falls_back_through_description_to_name() {
    let p = props(&[("media.class", "Audio/Source"), ("node.name", "mic0")]);
    let (dev, _) = parse_global_object(1, &p);
    assert_eq!(dev.expect("a device").nick, "mic0");
    let p2 = props(&[
        ("media.class", "Audio/Source"),
        ("node.name", "mic0"),
        ("node.description", "A Mic"),
    ]);
    let (dev2, _) = parse_global_object(1, &p2);
    assert_eq!(dev2.expect("a device").nick, "A Mic");
}

#[test]
fn announcements_classify_ports() {
    let p = props(&[
        ("port.direction", "in"),
        ("node.id", "40"),
        ("port.id", "7"),
        ("port.name", "input_FL"),
    ]);
    let (dev, prt) = parse_global_object(99, &p);
    assert!(dev.is_none());
    let prt = prt.expect("a port");
    assert_eq!(prt.node_id, 40);
    assert_eq!(prt.port_id, 7);
    assert_eq!(prt.name, "input_FL");
}

#[test]
fn malformed_port_announcements_are_dropped() {
    let p = props(&[("port.direction", "in"), ("node.id", "forty"), ("port.id", "7"),
        ("port.name", "input_FL")]);
    let (dev, prt) = parse_global_object(99, &p);
    assert!(dev.is_none() && prt.is_none());
    let p2 = props(&[("port.direction", "in"), ("node.id", "40")]);
    let (dev2, prt2) = parse_global_object(99, &p2);
    assert!(dev2.is_none() && prt2.is_none());
}

#[test]
fn other_announcements_are_neither() {
    let p = props(&[("media.class", "Midi/Bridge"), ("node.name", "midi")]);
    let (dev, prt) = parse_global_object(7, &p);
    assert!(dev.is_none() && prt.is_none());
    let empty = props(&[]);
    let (dev2, prt2) = parse_global_object(8, &empty);
    assert!(dev2.is_none() && prt2.is_none());
}

#[test]
fn port_name_table_is_exhaustive() {
    let cases: Vec<(&str, bool, bool, bool, bool)> = vec![
        ("input_FL", true, false, false, false),
        ("input_FR", false, true, false, false),
        ("output_FL", false, false, true, false),
        ("output_FR", false, false, false, true),
        ("capture_FL", false, false, true, false),
        ("capture_FR", false, false, false, true),
        ("input_MONO", true, true, false, false),
        ("output_MONO", false, false, true, true),
        ("capture_MONO", false, false, true, true),
        ("monitor_FL", false, false, false, false),
    ];
    for (name, ifl, ifr, ofl, ofr) in cases {
        let mut dev = bare_device(40, "mic0", DeviceType::Input);
        assign_port(&mut dev, port(40, 1, name));
        assert_eq!(dev.input_fl.is_some(), ifl, "input_fl for {}", name);
        assert_eq!(dev.input_fr.is_some(), ifr, "input_fr for {}", name);
        assert_eq!(dev.output_fl.is_some(), ofl, "output_fl for {}", name);
        assert_eq!(dev.output_fr.is_some(), ofr, "output_fr for {}", name);
    }
}

#[test]
fn mono_ports_fill_both_sides() {
    let mut dev = bare_device(40, "mic0", DeviceType::Input);
    assign_port(&mut dev, port(40, 3, "input_MONO"));
    let fl = dev.input_fl.expect("left side");
    let fr = dev.input_fr.expect("right side");
    assert_eq!((fl.node_id, fl.port_id, fl.name.as_str()), (40, 3, "input_MONO"));
    assert_eq!((fr.node_id, fr.port_id, fr.name.as_str()), (40, 3, "input_MONO"));
}

#[test]
fn ports_attach_by_node_id() {
    let mut devices = vec![
        bare_device(40, "mic0", DeviceType::Input),
        bare_device(50, "app", DeviceType::Output),
    ];
    let ports = vec![
        port(40, 1, "capture_FL"),
        port(40, 2, "capture_FR"),
        port(50, 3, "output_FL"),
        port(99, 4, "output_FR"),
    ];
    attach_ports(&mut devices, ports);
    assert_eq!(devices[0].output_fl.as_ref().expect("fl").port_id, 1);
    assert_eq!(devices[0].output_fr.as_ref().expect("fr").port_id, 2);
    assert_eq!(devices[1].output_fl.as_ref().expect("fl").port_id, 3);
    assert!(devices[1].output_fr.is_none());
}

#[test]
fn find_by_name_takes_the_first_match() {
    let devices = vec![
        bare_device(40, "mic0", DeviceType::Input),
        bare_device(41, "mic0", DeviceType::Output),
    ];
    let d = find_device_by_name(&devices, "mic0").expect("found");
    assert_eq!(d.id, 40);
    assert!(find_device_by_name(&devices, "mic9").is_none());
}

#[test]
fn link_planning_flows() {
    let mut mic = bare_device(40, "mic0", DeviceType::Input);
    assign_port(&mut mic, port(40, 1, "capture_FL"));
    assign_port(&mut mic, port(40, 2, "capture_FR"));
    let mut virt = bare_device(60, "pwsp-virtual-mic", DeviceType::Input);
    assign_port(&mut virt, port(60, 5, "input_FL"));
    assign_port(&mut virt, port(60, 6, "input_FR"));

    assert!(matches!(plan_link(&vec![], &None), LinkPlan::NoSelection));
    let selected = Some("mic0".to_string());
    assert!(matches!(plan_link(&vec![], &selected), LinkPlan::DeviceGone));

    let only_mic = vec![mic];
    assert!(matches!(plan_link(&only_mic, &selected), LinkPlan::VirtualMicMissing));

    let mut bare_mic_set = vec![bare_device(40, "mic0", DeviceType::Input)];
    bare_mic_set.push(virt);
    assert!(matches!(plan_link(&bare_mic_set, &selected), LinkPlan::PortsMissing));

    let mut full = only_mic;
    full.push(bare_mic_set.remove(1));
    match plan_link(&full, &selected) {
        LinkPlan::Link { output_fl, output_fr, input_fl, input_fr } => {
            assert_eq!((output_fl.node_id, output_fl.port_id), (40, 1));
            assert_eq!((output_fr.node_id, output_fr.port_id), (40, 2));
            assert_eq!((input_fl.node_id, input_fl.port_id), (60, 5));
            assert_eq!((input_fr.node_id, input_fr.port_id), (60, 6));
        },
        _ => panic!("expected a link plan"),
    }
}

#[test]
fn devices_insert_in_id_order() {
    let mut devices: Vec<AudioDevice> = Vec::new();
    insert_device_sorted(&mut devices, bare_device(50, "b", DeviceType::Input));
    insert_device_sorted(&mut devices, bare_device(40, "a", DeviceType::Input));
    insert_device_sorted(&mut devices, bare_device(60, "c", DeviceType::Output));
    let ids: Vec<u32> = devices.iter().map(|d| d.id).collect();
    assert_eq!(ids, vec![40, 50, 60]);
    // A later announcement under the same id replaces the earlier one.
    insert_device_sorted(&mut devices, bare_device(50, "b2", DeviceType::Output));
    assert_eq!(devices.len(), 3);
    assert_eq!(devices[1].id, 50);
    assert_eq!(devices[1].name, "b2");
    assert_eq!(devices[1].device_type, DeviceType::Output);
}
