use sootmix::meter_links::{meter_link_pairs, port_concerns_pending, sort_ports_by_name, PendingMeterLink, PortInfo};

fn port(id: u32, node_id: u32, is_output: bool, name: &str) -> PortInfo {
    PortInfo { id, node_id, is_output, name: name.to_string() }
}

#[test]
fn stereo_meter_links_pair_channels_in_name_order() {
    let ports = vec![
        port(11, 5, true, "monitor_FR"),
        port(10, 5, true, "monitor_FL"),
        port(12, 5, true, "playback_FL"),
        port(13, 5, false, "playback_FL"),
        port(21, 9, false, "input_FR"),
        port(20, 9, false, "input_FL"),
        port(22, 9, true, "output_FL"),
    ];
    assert_eq!(meter_link_pairs(&ports, 5, 9), vec![(10, 20), (11, 21)]);
}

#[test]
fn mono_meter_input_takes_every_monitor_port() {
    let ports = vec![
        port(11, 5, true, "monitor_FR"),
        port(10, 5, true, "monitor_FL"),
        port(30, 9, false, "input_MONO"),
    ];
    assert_eq!(meter_link_pairs(&ports, 5, 9), vec![(10, 30), (11, 30)]);
    let one_monitor = vec![port(10, 5, true, "monitor_MONO"), port(20, 9, false, "in_0"), port(21, 9, false, "in_1")];
    assert_eq!(meter_link_pairs(&one_monitor, 5, 9), vec![(10, 20)]);
}

#[test]
fn no_links_without_ports_on_both_sides() {
    let ports = vec![port(10, 5, true, "monitor_FL"), port(11, 5, true, "monitor_FR")];
    assert_eq!(meter_link_pairs(&ports, 5, 9), Vec::<(u32, u32)>::new());
    assert_eq!(meter_link_pairs(&vec![port(20, 9, false, "input_FL")], 5, 9), Vec::<(u32, u32)>::new());
}

#[test]
fn name_sort_is_stable() {
    let sorted = sort_ports_by_name(vec![port(3, 1, true, "b"), port(1, 1, true, "a"), port(2, 1, true, "b"), port(4, 1, true, "B")]);
    let ids: Vec<u32> = sorted.iter().map(|p| p.id).collect();
    assert_eq!(ids, vec![4, 1, 3, 2]);
}

#[test]
fn pending_links_concern_their_nodes() {
    let pending = vec![PendingMeterLink { sink_node_id: 5, sink_name: "sootmix.Game".to_string(), meter_node_id: 9, meter_name: "meter".to_string() }];
    assert!(port_concerns_pending(&pending, 5));
    assert!(port_concerns_pending(&pending, 9));
    assert!(!port_concerns_pending(&pending, 7));
    assert!(!port_concerns_pending(&vec![], 5));
}
