use sootmix::graph_events::{
    check_auto_routing, on_graph_event, GraphAction, GraphApp, GraphChannel, GraphEvent, GraphModel, PwLink, PwNode,
    PwPort,
};
use sootmix::routing_rules::{AppGrouping, RoutingRule, RoutingRulesConfig};

fn node(id: u32, name: &str, description: &str, sink: bool) -> PwNode {
    PwNode { id, name: name.to_string(), description: description.to_string(), is_audio_sink: sink }
}

fn app(node_id: u32, name: &str, identifier: &str) -> GraphApp {
    GraphApp { node_id, name: name.to_string(), binary: None, identifier: identifier.to_string() }
}

fn channel(id: u128, name: &str, sink: Option<u32>) -> GraphChannel {
    GraphChannel {
        id,
        name: name.to_string(),
        assigned_apps: Vec::new(),
        sink_id: sink,
        loopback_output_id: None,
        output_device_id: None,
        output_device_name: None,
        source_id: None,
        loopback_capture_id: None,
        input_device_name: None,
    }
}

fn model(startup_complete: bool) -> GraphModel {
    GraphModel {
        nodes: Vec::new(),
        ports: Vec::new(),
        links: Vec::new(),
        apps: Vec::new(),
        channels: Vec::new(),
        auto_routed: Vec::new(),
        routing_rules: RoutingRulesConfig::new(),
        pw_connected: false,
        startup_complete,
        master_recording_source_id: None,
        master_recording_enabled: false,
        last_error: None,
    }
}

#[test]
fn tables_keep_one_entry_per_id() {
    let mut m = model(false);
    on_graph_event(&mut m, GraphEvent::Connected);
    assert!(m.pw_connected);
    on_graph_event(&mut m, GraphEvent::NodeAdded(node(5, "a", "A", false), None));
    on_graph_event(&mut m, GraphEvent::NodeAdded(node(6, "b", "B", false), None));
    on_graph_event(&mut m, GraphEvent::NodeChanged(node(5, "a2", "A2", false)));
    assert_eq!(m.nodes.len(), 2);
    assert_eq!(m.nodes[0].name, "a2");
    on_graph_event(&mut m, GraphEvent::PortAdded(PwPort { id: 1, node_id: 5, name: "out_FL".to_string(), is_output: true }));
    on_graph_event(&mut m, GraphEvent::PortAdded(PwPort { id: 1, node_id: 5, name: "out_FR".to_string(), is_output: true }));
    assert_eq!(m.ports.len(), 1);
    assert_eq!(m.ports[0].name, "out_FR");
    on_graph_event(&mut m, GraphEvent::PortRemoved(1));
    assert!(m.ports.is_empty());
    let link = PwLink { id: 9, output_node: 5, output_port: 1, input_node: 6, input_port: 2 };
    on_graph_event(&mut m, GraphEvent::LinkAdded(link));
    assert_eq!(m.links.len(), 1);
    on_graph_event(&mut m, GraphEvent::LinkRemoved(9));
    assert!(m.links.is_empty());
    on_graph_event(&mut m, GraphEvent::NodeRemoved(5));
    assert_eq!(m.nodes.len(), 1);
    assert_eq!(m.nodes[0].id, 6);
    on_graph_event(&mut m, GraphEvent::Disconnected);
    assert!(!m.pw_connected);
}

#[test]
fn unplugged_device_sends_its_channel_to_the_default_output_and_back() {
    let mut m = model(true);
    let mut c = channel(1, "Music", Some(100));
    c.loopback_output_id = Some(101);
    c.output_device_id = Some(50);
    c.output_device_name = Some("USB Headset".to_string());
    m.channels.push(c);
    let actions = on_graph_event(&mut m, GraphEvent::NodeRemoved(50));
    assert_eq!(actions, vec![GraphAction::RouteChannelToDevice(101, None)]);
    assert_eq!(m.channels[0].output_device_id, None);
    assert_eq!(m.channels[0].output_device_name, Some("USB Headset".to_string()));
    // A node of another name, or one that is not a sink, changes nothing.
    let actions = on_graph_event(&mut m, GraphEvent::NodeAdded(node(60, "alsa_output.other", "Speakers", true), None));
    assert!(actions.is_empty());
    let actions = on_graph_event(&mut m, GraphEvent::NodeAdded(node(61, "x", "USB Headset", false), None));
    assert!(actions.is_empty());
    let actions = on_graph_event(&mut m, GraphEvent::NodeAdded(node(70, "alsa_output.usb", "USB Headset", true), None));
    assert_eq!(actions, vec![GraphAction::RouteChannelToDevice(101, Some(70))]);
    assert_eq!(m.channels[0].output_device_id, Some(70));
}

#[test]
fn device_reappearance_waits_for_startup() {
    let mut m = model(false);
    let mut c = channel(1, "Music", Some(100));
    c.loopback_output_id = Some(101);
    c.output_device_name = Some("USB Headset".to_string());
    m.channels.push(c);
    let actions = on_graph_event(&mut m, GraphEvent::NodeAdded(node(70, "alsa_output.usb", "USB Headset", true), None));
    assert!(actions.is_empty());
    assert_eq!(m.channels[0].output_device_id, None);
}

#[test]
fn virtual_sink_events_record_and_forget_the_sink() {
    let mut m = model(false);
    m.nodes.push(node(70, "alsa_output.usb", "USB Headset", true));
    let mut c = channel(1, "Music", None);
    c.output_device_name = Some("alsa_output.usb".to_string());
    m.channels.push(c);
    let actions = on_graph_event(&mut m, GraphEvent::VirtualSinkCreated(1, 100, Some(101)));
    assert_eq!(actions, vec![GraphAction::RouteChannelToDevice(101, Some(70))]);
    assert_eq!(m.channels[0].sink_id, Some(100));
    assert_eq!(m.channels[0].loopback_output_id, Some(101));
    let actions = on_graph_event(&mut m, GraphEvent::VirtualSinkCreated(9, 200, Some(201)));
    assert_eq!(actions, vec![GraphAction::RouteChannelToDevice(201, None)]);
    on_graph_event(&mut m, GraphEvent::VirtualSinkDestroyed(100));
    assert_eq!(m.channels[0].sink_id, None);
}

#[test]
fn rules_route_new_apps_once() {
    let mut m = model(true);
    m.channels.push(channel(1, "Web", Some(100)));
    m.routing_rules.rules.push(RoutingRule::new("Browsers", "firefox", "Web"));
    m.routing_rules.app_grouping = AppGrouping::Individual;
    let actions = on_graph_event(&mut m, GraphEvent::NodeAdded(node(42, "ff", "ff", false), Some(app(42, "Firefox", "firefox"))));
    assert_eq!(actions, vec![GraphAction::RouteApp(42, "firefox".to_string(), 1)]);
    assert_eq!(m.auto_routed, vec![42]);
    // The next pass leaves the routed node alone.
    assert!(check_auto_routing(&mut m).is_empty());
    // A restart on a new node is routed again.
    on_graph_event(&mut m, GraphEvent::NodeRemoved(42));
    assert!(m.auto_routed.is_empty());
    let actions = on_graph_event(&mut m, GraphEvent::NodeAdded(node(43, "ff", "ff", false), Some(app(43, "Firefox", "firefox"))));
    assert_eq!(actions, vec![GraphAction::RouteApp(43, "firefox".to_string(), 1)]);
}

#[test]
fn grouped_apps_route_all_their_streams() {
    let mut m = model(true);
    m.channels.push(channel(1, "Web", Some(100)));
    m.routing_rules.rules.push(RoutingRule::new("Browsers", "firefox", "Web"));
    m.apps.push(app(10, "Firefox", "firefox"));
    m.apps.push(app(11, "Firefox", "firefox"));
    m.apps.push(app(12, "Spotify", "spotify"));
    let actions = check_auto_routing(&mut m);
    assert_eq!(
        actions,
        vec![GraphAction::RouteApp(10, "firefox".to_string(), 1), GraphAction::RouteApp(11, "firefox".to_string(), 1)]
    );
    assert_eq!(m.auto_routed, vec![10, 11]);
}

#[test]
fn assigned_apps_go_to_their_channel_unless_already_linked() {
    let mut m = model(true);
    let mut game = channel(1, "Game", Some(100));
    game.assigned_apps = vec!["steam".to_string()];
    m.channels.push(game);
    let mut pending = channel(2, "Chat", None);
    pending.assigned_apps = vec!["discord".to_string()];
    m.channels.push(pending);
    m.routing_rules.app_grouping = AppGrouping::Individual;
    m.apps.push(app(20, "Steam", "steam"));
    m.apps.push(app(21, "Steam", "steam"));
    m.apps.push(app(30, "Discord", "discord"));
    m.links.push(PwLink { id: 5, output_node: 21, output_port: 1, input_node: 100, input_port: 2 });
    let actions = check_auto_routing(&mut m);
    assert_eq!(actions, vec![GraphAction::RouteApp(20, "steam".to_string(), 1)]);
    // The linked stream is marked routed; the app whose channel has no sink waits.
    assert_eq!(m.auto_routed, vec![20, 21]);
}

#[test]
fn rule_to_a_channel_without_a_sink_waits() {
    let mut m = model(true);
    m.channels.push(channel(1, "Web", None));
    m.routing_rules.rules.push(RoutingRule::new("Browsers", "firefox", "Web"));
    m.apps.push(app(10, "Firefox", "firefox"));
    assert!(check_auto_routing(&mut m).is_empty());
    assert!(m.auto_routed.is_empty());
}

#[test]
fn a_stray_link_of_an_assigned_app_is_replaced() {
    let mut m = model(true);
    let mut game = channel(1, "Game", Some(100));
    game.assigned_apps = vec!["steam".to_string()];
    m.channels.push(game);
    m.nodes.push(node(50, "alsa_output.pci", "Speakers", true));
    m.nodes.push(node(60, "some.filter", "Filter", false));
    m.apps.push(app(20, "Steam", "steam"));
    m.apps.push(app(21, "Firefox", "firefox"));
    let stray = PwLink { id: 7, output_node: 20, output_port: 1, input_node: 50, input_port: 2 };
    let actions = on_graph_event(&mut m, GraphEvent::LinkAdded(stray));
    assert_eq!(actions, vec![GraphAction::DestroyLink(7), GraphAction::RelinkApp(20, 100)]);
    assert_eq!(m.links.len(), 1);
    // Links to the channel's own sink, to a node that is no sink, or of an
    // unassigned app stay.
    let own = PwLink { id: 8, output_node: 20, output_port: 1, input_node: 100, input_port: 3 };
    assert!(on_graph_event(&mut m, GraphEvent::LinkAdded(own)).is_empty());
    let to_filter = PwLink { id: 9, output_node: 20, output_port: 1, input_node: 60, input_port: 4 };
    assert!(on_graph_event(&mut m, GraphEvent::LinkAdded(to_filter)).is_empty());
    let other_app = PwLink { id: 10, output_node: 21, output_port: 1, input_node: 50, input_port: 2 };
    assert!(on_graph_event(&mut m, GraphEvent::LinkAdded(other_app)).is_empty());
    assert_eq!(m.links.len(), 4);
}

#[test]
fn stray_links_are_left_alone_before_startup() {
    let mut m = model(false);
    let mut game = channel(1, "Game", Some(100));
    game.assigned_apps = vec!["steam".to_string()];
    m.channels.push(game);
    m.nodes.push(node(50, "alsa_output.pci", "Speakers", true));
    m.apps.push(app(20, "Steam", "steam"));
    let stray = PwLink { id: 7, output_node: 20, output_port: 1, input_node: 50, input_port: 2 };
    assert!(on_graph_event(&mut m, GraphEvent::LinkAdded(stray)).is_empty());
}

#[test]
fn virtual_source_records_its_nodes_and_captures_the_chosen_device() {
    let mut m = model(true);
    let mut mic = channel(3, "Mic", None);
    mic.input_device_name = Some("USB Mic".to_string());
    m.channels.push(mic);
    m.channels.push(channel(4, "Other mic", None));
    let actions = on_graph_event(&mut m, GraphEvent::VirtualSourceCreated(3, 300, Some(301)));
    assert_eq!(actions, vec![GraphAction::RouteInputDevice(3, "USB Mic".to_string())]);
    assert_eq!(m.channels[0].source_id, Some(300));
    assert_eq!(m.channels[0].loopback_capture_id, Some(301));
    let actions = on_graph_event(&mut m, GraphEvent::VirtualSourceCreated(4, 400, None));
    assert!(actions.is_empty());
    assert_eq!(m.channels[1].source_id, Some(400));
    assert!(on_graph_event(&mut m, GraphEvent::VirtualSourceCreated(9, 900, None)).is_empty());
}

#[test]
fn master_recording_source_is_tracked() {
    let mut m = model(true);
    on_graph_event(&mut m, GraphEvent::RecordingSourceCreated("other".to_string(), 70));
    assert_eq!(m.master_recording_source_id, None);
    on_graph_event(&mut m, GraphEvent::RecordingSourceCreated("master".to_string(), 71));
    assert_eq!(m.master_recording_source_id, Some(71));
    m.master_recording_enabled = true;
    on_graph_event(&mut m, GraphEvent::RecordingSourceDestroyed(70));
    assert!(m.master_recording_enabled);
    on_graph_event(&mut m, GraphEvent::RecordingSourceDestroyed(71));
    assert_eq!(m.master_recording_source_id, None);
    assert!(!m.master_recording_enabled);
    on_graph_event(&mut m, GraphEvent::Error("link failed".to_string()));
    assert_eq!(m.last_error, Some("link failed".to_string()));
}

#[test]
fn tick_routes_once_startup_is_complete() {
    let mut m = model(false);
    m.channels.push(channel(1, "Web", Some(100)));
    m.routing_rules.rules.push(RoutingRule::new("Browsers", "firefox", "Web"));
    m.apps.push(app(10, "Firefox", "firefox"));
    assert!(on_graph_event(&mut m, GraphEvent::Tick).is_empty());
    assert!(m.auto_routed.is_empty());
    on_graph_event(&mut m, GraphEvent::StartupCompleted);
    assert!(m.startup_complete);
    assert_eq!(on_graph_event(&mut m, GraphEvent::Tick), vec![GraphAction::RouteApp(10, "firefox".to_string(), 1)]);
    assert!(on_graph_event(&mut m, GraphEvent::Tick).is_empty());
}

#[test]
fn node_removal_does_not_route_until_the_tick() {
    let mut m = model(true);
    m.channels.push(channel(1, "Web", Some(100)));
    m.routing_rules.rules.push(RoutingRule::new("Browsers", "firefox", "Web"));
    m.apps.push(app(10, "Firefox", "firefox"));
    assert!(on_graph_event(&mut m, GraphEvent::NodeRemoved(99)).is_empty());
    assert!(m.auto_routed.is_empty());
    assert_eq!(on_graph_event(&mut m, GraphEvent::Tick).len(), 1);
}
